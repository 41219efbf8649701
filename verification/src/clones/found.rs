//! Nothing long enough is missed: the law of clone detection.

use vstd::prelude::*;
use vstd::relations::sorted_by;

use crate::clones::detect::{clones_of, found_from, found_in, found_rows, found_sorted, same_files_end, Found};
use crate::clones::runs::{
    admitted, all_prints, back, begun, by_length, candidates, clones_in, clones_in_is_short, extended, files_in, forth, goes_on, is_clone,
    kept_from, length_rows, match_of, match_ok, matches_among, matches_at, matches_from, matches_ok, meet, merged, merged_is_short, print_ok,
    prints_of, prints_ok, reaching, run_ok, runs_of, same_hash_end, seen, sorted_matches_ok, sorted_prints_ok, Run,
};
use crate::clones::tables::{control_of, Shares};
use crate::clones::tokens::{hashes_of, TokensView};
use crate::clones::winnow::{a_shared_run_shares_a_fingerprint, fingerprints_lie_inside, winnowed};
use crate::config::Clones;
use crate::discover::SourceFile;
use crate::sorting::{row_order, sorted_rows, sorted_rows_are_sorted, sorted_rows_hold, Row};
use crate::text::Chars;

verus! {

// ---------- what is stated ----------

/// A hash has neither too many places nor too many files to be looked at.
pub open spec fn uncrowded(s: Seq<Row>, h: i128, cfg: Clones) -> bool {
    forall|g: int|
        0 <= g < s.len() && (#[trigger] s[g]).0 == h && (g == 0 || s[g - 1].0 != h) ==> {
            let e = same_hash_end(s, g, g + 1);
            e - g <= cfg.max_locations && files_in(s, g, e) <= cfg.max_files
        }
}

/// The fingerprints of a stretch of file `f` are of uncrowded hashes.
pub open spec fn stretch_uncrowded(toks: Seq<TokensView>, f: int, start: int, n: int, cfg: Clones) -> bool {
    let p = winnowed(hashes_of(toks[f].list), cfg.k, cfg.w);
    forall|x: int|
        0 <= x < p.len() && start <= (#[trigger] p[x]).0 && p[x].0 + cfg.k <= start + n ==> uncrowded(
            sorted_rows(all_prints(toks, cfg.k, cfg.w, toks.len() as int)),
            p[x].1 as i128,
            cfg,
        )
}

/// A run holds the stretches of `n` tokens from `i` and `j` on, at the same place of both its sides.
pub open spec fn holds_both(r: Run, i: int, j: int, n: int) -> bool {
    &&& r.a <= i
    &&& i + n <= r.a + r.len
    &&& r.a - r.b == i - j
}

/// A run stands for another: it is that run, or it is no shorter and meets it on both sides.
pub open spec fn stands_for(u: Run, r: Run) -> bool {
    u == r || (u.len >= r.len && meet(r.a, r.len, u.a, u.len) && meet(r.b, r.len, u.b, u.len))
}

// ---------- fingerprints ----------

proof fn print_is_listed(toks: Seq<TokensView>, k: usize, w: usize, n: int, f: int, x: int)
    requires
        0 <= f < n <= toks.len(),
        0 <= x < winnowed(hashes_of(toks[f].list), k, w).len(),
    ensures
        all_prints(toks, k, w, n).contains(prints_of(toks[f], f, k, w)[x]),
    decreases n,
{
    let before = all_prints(toks, k, w, n - 1);
    let here = prints_of(toks[n - 1], n - 1, k, w);
    let all = all_prints(toks, k, w, n);
    let r = prints_of(toks[f], f, k, w)[x];
    if f == n - 1 {
        assert(all[before.len() + x] == r);
    } else {
        print_is_listed(toks, k, w, n - 1, f, x);
        let y = choose|y: int| 0 <= y < before.len() && before[y] == r;
        assert(all[y] == r);
    }
}

proof fn all_prints_ok(toks: Seq<TokensView>, k: usize, w: usize, n: int)
    requires
        0 <= n <= toks.len() <= usize::MAX,
        forall|f: int| 0 <= f < toks.len() ==> (#[trigger] toks[f]).list.len() <= usize::MAX,
    ensures
        prints_ok(toks, k, all_prints(toks, k, w, n)),
    decreases n,
{
    if n > 0 {
        all_prints_ok(toks, k, w, n - 1);
        let before = all_prints(toks, k, w, n - 1);
        let here = prints_of(toks[n - 1], n - 1, k, w);
        let all = all_prints(toks, k, w, n);
        let p = winnowed(hashes_of(toks[n - 1].list), k, w);
        assert(toks[n - 1].list.len() <= usize::MAX);
        fingerprints_lie_inside(hashes_of(toks[n - 1].list), k, w);
        assert forall|y: int| 0 <= y < all.len() implies print_ok(toks, k, #[trigger] all[y]) by {
            if y < before.len() {
                assert(all[y] == before[y]);
            } else {
                let z = y - before.len();
                assert(all[y] == here[z]);
                assert(p[z].0 >= 0);
            }
        }
    }
}

// ---------- candidates ----------

proof fn same_hash(s: Seq<Row>, i: int, j: int)
    requires
        0 <= i < j <= s.len(),
        forall|z: int| i <= z < j ==> (#[trigger] s[z]).0 == s[i].0,
    ensures
        j <= same_hash_end(s, i, j) <= s.len(),
        forall|z: int| i <= z < same_hash_end(s, i, j) ==> (#[trigger] s[z]).0 == s[i].0,
        same_hash_end(s, i, j) < s.len() ==> s[same_hash_end(s, i, j)].0 != s[i].0,
    decreases s.len() - j,
{
    if j < s.len() && s[j].0 == s[i].0 {
        same_hash(s, i, j + 1);
    }
}

proof fn matched_at(s: Seq<Row>, i: int, j: int, e: int, k: usize, y: int)
    requires
        j <= y < e,
        s[i].1 != s[y].1,
    ensures
        matches_at(s, i, j, e, k).contains(match_of(s[i], s[y])),
    decreases e - j,
{
    let rest = matches_at(s, i, j + 1, e, k);
    let all = matches_at(s, i, j, e, k);
    let m = match_of(s[i], s[y]);
    if j == y {
        assert(all[0] == m);
    } else {
        matched_at(s, i, j + 1, e, k, y);
        let z = choose|z: int| 0 <= z < rest.len() && rest[z] == m;
        if s[i].1 == s[j].1 && s[j].2 - s[i].2 < k {
            assert(all[z] == m);
        } else {
            assert(all[z + 1] == m);
        }
    }
}

proof fn matched_among(s: Seq<Row>, i: int, e: int, k: usize, x: int, y: int)
    requires
        i <= x < y < e,
        s[x].1 != s[y].1,
    ensures
        matches_among(s, i, e, k).contains(match_of(s[x], s[y])),
    decreases e - i,
{
    let here = matches_at(s, i, i + 1, e, k);
    let rest = matches_among(s, i + 1, e, k);
    let all = matches_among(s, i, e, k);
    let m = match_of(s[x], s[y]);
    if i == x {
        matched_at(s, i, i + 1, e, k, y);
        let z = choose|z: int| 0 <= z < here.len() && here[z] == m;
        assert(all[z] == m);
    } else {
        matched_among(s, i + 1, e, k, x, y);
        let z = choose|z: int| 0 <= z < rest.len() && rest[z] == m;
        assert(all[here.len() + z] == m);
    }
}

proof fn matched_from(s: Seq<Row>, i: int, cfg: Clones, x: int, y: int)
    requires
        forall|u: int, v: int| 0 <= u <= v < s.len() ==> (#[trigger] s[u]).0 <= (#[trigger] s[v]).0,
        0 <= i <= x < y < s.len(),
        i == 0 || s[i - 1].0 != s[i].0,
        s[x].0 == s[y].0,
        s[x].1 != s[y].1,
        uncrowded(s, s[x].0, cfg),
    ensures
        matches_from(s, i, cfg).contains(match_of(s[x], s[y])),
    decreases s.len() - i,
{
    let e = same_hash_end(s, i, i + 1);
    same_hash(s, i, i + 1);
    let here = if admitted(s, i, e, cfg) {
        matches_among(s, i, e, cfg.k)
    } else {
        Seq::empty()
    };
    let rest = if i < e <= s.len() {
        matches_from(s, e, cfg)
    } else {
        Seq::empty()
    };
    let all = matches_from(s, i, cfg);
    let m = match_of(s[x], s[y]);
    assert(all == here + rest);
    if x < e {
        assert(s[x].0 == s[i].0);
        if y >= e {
            assert(s[i].0 <= s[e].0 && s[e].0 <= s[y].0);
            assert(false);
        }
        assert(uncrowded(s, s[i].0, cfg));
        assert(admitted(s, i, e, cfg));
        matched_among(s, i, e, cfg.k, x, y);
        let z = choose|z: int| 0 <= z < here.len() && here[z] == m;
        assert(all[z] == m);
    } else {
        assert(s[e - 1].0 == s[i].0);
        matched_from(s, e, cfg, x, y);
        let z = choose|z: int| 0 <= z < rest.len() && rest[z] == m;
        assert(all[here.len() + z] == m);
    }
}

proof fn matches_at_ok(toks: Seq<TokensView>, k: usize, s: Seq<Row>, i: int, j: int, e: int)
    requires
        prints_ok(toks, k, s),
        0 <= i < s.len(),
        0 <= j,
        e <= s.len(),
        forall|f: int| 0 <= f < toks.len() ==> (#[trigger] toks[f]).list.len() <= usize::MAX,
    ensures
        matches_ok(toks, k, matches_at(s, i, j, e, k)),
    decreases e - j,
{
    if j < e {
        matches_at_ok(toks, k, s, i, j + 1, e);
        let rest = matches_at(s, i, j + 1, e, k);
        let all = matches_at(s, i, j, e, k);
        assert(print_ok(toks, k, s[i]) && print_ok(toks, k, s[j]));
        assert(toks[s[i].1 as int].list.len() <= usize::MAX && toks[s[j].1 as int].list.len() <= usize::MAX);
        if !(s[i].1 == s[j].1 && s[j].2 - s[i].2 < k) {
            assert(match_ok(toks, k, match_of(s[i], s[j])));
            assert forall|z: int| 0 <= z < all.len() implies match_ok(toks, k, #[trigger] all[z]) by {
                if z > 0 {
                    assert(all[z] == rest[z - 1]);
                }
            }
        }
    }
}

proof fn both_ok(toks: Seq<TokensView>, k: usize, a: Seq<Row>, b: Seq<Row>)
    requires
        matches_ok(toks, k, a),
        matches_ok(toks, k, b),
    ensures
        matches_ok(toks, k, a + b),
{
    let all = a + b;
    assert forall|z: int| 0 <= z < all.len() implies match_ok(toks, k, #[trigger] all[z]) by {
        if z < a.len() {
            assert(all[z] == a[z]);
        } else {
            assert(all[z] == b[z - a.len()]);
        }
    }
}

proof fn matches_among_ok(toks: Seq<TokensView>, k: usize, s: Seq<Row>, i: int, e: int)
    requires
        prints_ok(toks, k, s),
        0 <= i,
        e <= s.len(),
        forall|f: int| 0 <= f < toks.len() ==> (#[trigger] toks[f]).list.len() <= usize::MAX,
    ensures
        matches_ok(toks, k, matches_among(s, i, e, k)),
    decreases e - i,
{
    if i < e {
        matches_at_ok(toks, k, s, i, i + 1, e);
        matches_among_ok(toks, k, s, i + 1, e);
        both_ok(toks, k, matches_at(s, i, i + 1, e, k), matches_among(s, i + 1, e, k));
    }
}

proof fn matches_from_ok(toks: Seq<TokensView>, s: Seq<Row>, i: int, cfg: Clones)
    requires
        prints_ok(toks, cfg.k, s),
        0 <= i,
        forall|f: int| 0 <= f < toks.len() ==> (#[trigger] toks[f]).list.len() <= usize::MAX,
    ensures
        matches_ok(toks, cfg.k, matches_from(s, i, cfg)),
    decreases s.len() - i,
{
    if i < s.len() {
        let e = same_hash_end(s, i, i + 1);
        same_hash(s, i, i + 1);
        matches_among_ok(toks, cfg.k, s, i, e);
        matches_from_ok(toks, s, e, cfg);
        let here = if admitted(s, i, e, cfg) {
            matches_among(s, i, e, cfg.k)
        } else {
            Seq::empty()
        };
        both_ok(toks, cfg.k, here, matches_from(s, e, cfg));
    }
}

pub(crate) proof fn candidates_ok(toks: Seq<TokensView>, cfg: Clones)
    requires
        toks.len() <= usize::MAX,
        forall|f: int| 0 <= f < toks.len() ==> (#[trigger] toks[f]).list.len() <= usize::MAX,
    ensures
        matches_ok(toks, cfg.k, candidates(toks, cfg)),
        sorted_by(candidates(toks, cfg), row_order()),
{
    let p = all_prints(toks, cfg.k, cfg.w, toks.len() as int);
    all_prints_ok(toks, cfg.k, cfg.w, toks.len() as int);
    sorted_prints_ok(toks, cfg.k, p);
    let m = matches_from(sorted_rows(p), 0, cfg);
    matches_from_ok(toks, sorted_rows(p), 0, cfg);
    sorted_matches_ok(toks, cfg.k, m);
    sorted_rows_are_sorted(m);
}

/// Two fingerprints of one uncrowded hash in two files make a candidate.
proof fn a_shared_hash_is_a_candidate(toks: Seq<TokensView>, fa: int, fb: int, x: int, y: int, cfg: Clones)
    requires
        0 <= fa < fb < toks.len() <= usize::MAX,
        0 <= x < winnowed(hashes_of(toks[fa].list), cfg.k, cfg.w).len(),
        0 <= y < winnowed(hashes_of(toks[fb].list), cfg.k, cfg.w).len(),
        winnowed(hashes_of(toks[fa].list), cfg.k, cfg.w)[x].1 == winnowed(hashes_of(toks[fb].list), cfg.k, cfg.w)[y].1,
        uncrowded(
            sorted_rows(all_prints(toks, cfg.k, cfg.w, toks.len() as int)),
            winnowed(hashes_of(toks[fa].list), cfg.k, cfg.w)[x].1 as i128,
            cfg,
        ),
    ensures
        candidates(toks, cfg).contains(match_of(prints_of(toks[fa], fa, cfg.k, cfg.w)[x], prints_of(toks[fb], fb, cfg.k, cfg.w)[y])),
{
    let n = toks.len() as int;
    let p = all_prints(toks, cfg.k, cfg.w, n);
    let s = sorted_rows(p);
    let rx = prints_of(toks[fa], fa, cfg.k, cfg.w)[x];
    let ry = prints_of(toks[fb], fb, cfg.k, cfg.w)[y];
    print_is_listed(toks, cfg.k, cfg.w, n, fa, x);
    print_is_listed(toks, cfg.k, cfg.w, n, fb, y);
    sorted_rows_are_sorted(p);
    sorted_rows_hold(p, rx);
    sorted_rows_hold(p, ry);
    let u = choose|u: int| 0 <= u < s.len() && s[u] == rx;
    let v = choose|v: int| 0 <= v < s.len() && s[v] == ry;
    assert(rx.1 < ry.1);
    if v < u {
        assert(row_order()(s[v], s[u]));
        assert(false);
    }
    assert(u != v);
    assert forall|a: int, b: int| 0 <= a <= b < s.len() implies (#[trigger] s[a]).0 <= (#[trigger] s[b]).0 by {
        if a < b {
            assert(row_order()(s[a], s[b]));
        }
    }
    matched_from(s, 0, cfg, u, v);
    sorted_rows_hold(matches_from(s, 0, cfg), match_of(rx, ry));
}

// ---------- runs ----------

/// A run lies in its files and holds the match at `p` on diagonal `d`.
spec fn holds_match(r: Run, d: int, p: int, k: usize, la: nat, lb: nat) -> bool {
    &&& run_ok(r, la, lb)
    &&& r.a - r.b == d
    &&& r.a <= p
    &&& p + k <= r.a + r.len
}

proof fn done_stays(s: Seq<Row>, i: int, e: int, k: usize, open: Option<Run>, done: Seq<Run>, x: Run)
    requires
        done.contains(x),
    ensures
        merged(s, i, e, k, open, done).contains(x),
    decreases e - i,
{
    let y = choose|y: int| 0 <= y < done.len() && done[y] == x;
    if i >= e {
        match open {
            Some(r) => {
                assert(done.push(r)[y] == x);
            },
            None => {},
        }
    } else {
        match open {
            Some(r) => {
                if goes_on(r, s[i]) {
                    done_stays(s, i + 1, e, k, Some(reaching(r, s[i], k)), done, x);
                } else {
                    assert(done.push(r)[y] == x);
                    done_stays(s, i + 1, e, k, Some(begun(s[i], k)), done.push(r), x);
                }
            },
            None => {
                done_stays(s, i + 1, e, k, Some(begun(s[i], k)), done, x);
            },
        }
    }
}

/// The matches from `i` to `e` lie in the files, in order of their diagonals and places.
spec fn in_step(s: Seq<Row>, i: int, e: int, k: usize, la: nat, lb: nat) -> bool {
    &&& forall|z: int|
        i <= z < e ==> {
            &&& 0 <= (#[trigger] s[z]).3
            &&& 0 <= s[z].3 - s[z].2
            &&& s[z].3 + k <= la
            &&& s[z].3 - s[z].2 + k <= lb
        }
    &&& forall|u: int, v: int| i <= u <= v < e ==> (#[trigger] s[u]).2 < (#[trigger] s[v]).2 || (s[u].2 == s[v].2 && s[u].3 <= s[v].3)
}

proof fn open_run_stays(s: Seq<Row>, i: int, e: int, k: usize, r: Run, done: Seq<Run>, d: int, p: int, la: nat, lb: nat)
    requires
        k > 0,
        in_step(s, i, e, k, la, lb),
        la <= usize::MAX,
        lb <= usize::MAX,
        holds_match(r, d, p, k, la, lb),
        forall|z: int| i <= z < e && (#[trigger] s[z]).2 == d ==> p <= s[z].3,
    ensures
        exists|x: Run| merged(s, i, e, k, Some(r), done).contains(x) && #[trigger] holds_match(x, d, p, k, la, lb),
    decreases e - i,
{
    if i >= e {
        assert(merged(s, i, e, k, Some(r), done) == done.push(r));
        assert(done.push(r)[done.len() as int] == r);
    } else {
        assert(s[i].3 >= 0);
        if goes_on(r, s[i]) {
            let next = reaching(r, s[i], k);
            assert(holds_match(next, d, p, k, la, lb));
            open_run_stays(s, i + 1, e, k, next, done, d, p, la, lb);
        } else {
            assert(done.push(r)[done.len() as int] == r);
            done_stays(s, i + 1, e, k, Some(begun(s[i], k)), done.push(r), r);
        }
    }
}

proof fn a_match_is_in_a_run(s: Seq<Row>, i: int, e: int, k: usize, open: Option<Run>, done: Seq<Run>, x: int, la: nat, lb: nat)
    requires
        k > 0,
        i <= x < e,
        in_step(s, i, e, k, la, lb),
        la <= usize::MAX,
        lb <= usize::MAX,
        open matches Some(r) ==> run_ok(r, la, lb) && forall|z: int| i <= z < e && (#[trigger] s[z]).2 == r.a - r.b ==> r.a <= s[z].3,
    ensures
        exists|y: Run|
            merged(s, i, e, k, open, done).contains(y) && #[trigger] holds_match(y, s[x].2 as int, s[x].3 as int, k, la, lb),
    decreases e - i,
{
    let d = s[x].2 as int;
    let p = s[x].3 as int;
    assert(s[i].3 >= 0);
    let (next, more) = match open {
        Some(r) => if goes_on(r, s[i]) {
            (reaching(r, s[i], k), done)
        } else {
            (begun(s[i], k), done.push(r))
        },
        None => (begun(s[i], k), done),
    };
    assert(merged(s, i, e, k, open, done) == merged(s, i + 1, e, k, Some(next), more));
    assert(next.a - next.b == s[i].2 && next.a <= s[i].3 && run_ok(next, la, lb));
    if i == x {
        assert(holds_match(next, d, p, k, la, lb));
        assert forall|z: int| i + 1 <= z < e && (#[trigger] s[z]).2 == d implies p <= s[z].3 by {
            assert(s[i].2 < s[z].2 || (s[i].2 == s[z].2 && s[i].3 <= s[z].3));
        }
        open_run_stays(s, i + 1, e, k, next, more, d, p, la, lb);
    } else {
        assert forall|z: int| i + 1 <= z < e && (#[trigger] s[z]).2 == next.a - next.b implies next.a <= s[z].3 by {
            assert(s[i].2 < s[z].2 || (s[i].2 == s[z].2 && s[i].3 <= s[z].3));
        }
        a_match_is_in_a_run(s, i + 1, e, k, Some(next), more, x, la, lb);
    }
}

proof fn back_is_bounded(x: Seq<u64>, y: Seq<u64>, i: int, j: int, c: int)
    requires
        0 <= c <= i <= x.len(),
        c <= j <= y.len(),
        forall|t: int| i - c <= t < i ==> #[trigger] x[t] == y[t - i + j],
    ensures
        c <= back(x, y, i, j) <= i,
        back(x, y, i, j) <= j,
    decreases i,
{
    if 0 < i && 0 < j && x[i - 1] == y[j - 1] {
        if c > 0 {
            assert forall|t: int| i - 1 - (c - 1) <= t < i - 1 implies #[trigger] x[t] == y[t - (i - 1) + (j - 1)] by {
                assert(x[t] == y[t - i + j]);
            }
            back_is_bounded(x, y, i - 1, j - 1, c - 1);
        } else {
            back_is_bounded(x, y, i - 1, j - 1, 0);
        }
    } else if c > 0 {
        assert(x[i - 1] == y[i - 1 - i + j]);
    }
}

proof fn forth_is_bounded(x: Seq<u64>, y: Seq<u64>, i: int, j: int, c: int)
    requires
        0 <= c,
        0 <= i,
        0 <= j,
        i + c <= x.len(),
        j + c <= y.len(),
        forall|t: int| i <= t < i + c ==> #[trigger] x[t] == y[t - i + j],
    ensures
        c <= forth(x, y, i, j),
        i + forth(x, y, i, j) <= x.len(),
        j + forth(x, y, i, j) <= y.len(),
    decreases x.len() - i,
{
    if i < x.len() && j < y.len() && x[i] == y[j] {
        if c > 0 {
            assert forall|t: int| i + 1 <= t < i + 1 + (c - 1) implies #[trigger] x[t] == y[t - (i + 1) + (j + 1)] by {
                assert(x[t] == y[t - i + j]);
            }
            forth_is_bounded(x, y, i + 1, j + 1, c - 1);
        } else {
            forth_is_bounded(x, y, i + 1, j + 1, 0);
        }
    } else if c > 0 {
        assert(x[i] == y[i - i + j]);
    }
}

proof fn extended_holds_both(x: Seq<u64>, y: Seq<u64>, r: Run, i: int, j: int, n: int, p: int, k: usize)
    requires
        k > 0,
        x.len() <= usize::MAX,
        y.len() <= usize::MAX,
        0 <= i,
        0 <= j,
        i + n <= x.len(),
        j + n <= y.len(),
        forall|t: int| i <= t < i + n ==> #[trigger] x[t] == y[t - i + j],
        holds_match(r, i - j, p, k, x.len(), y.len()),
        i <= p,
        p + k <= i + n,
    ensures
        holds_both(extended(x, y, r), i, j, n),
        extended(x, y, r).len >= n,
{
    let c = if r.a > i {
        r.a - i
    } else {
        0
    };
    assert forall|t: int| r.a - c <= t < r.a implies #[trigger] x[t] == y[t - r.a + r.b] by {
        assert(x[t] == y[t - i + j]);
    }
    back_is_bounded(x, y, r.a as int, r.b as int, c);
    let end = r.a + r.len;
    let m = if end < i + n {
        i + n - end
    } else {
        0
    };
    assert forall|t: int| end <= t < end + m implies #[trigger] x[t] == y[t - end + (r.b + r.len)] by {
        assert(x[t] == y[t - i + j]);
    }
    forth_is_bounded(x, y, end, r.b + r.len, m);
}

proof fn a_long_run_is_a_clone(x: Seq<u64>, y: Seq<u64>, s: Seq<Run>, min: usize, at: int)
    requires
        0 <= at < s.len(),
        is_clone(extended(x, y, s[at]), min, false),
    ensures
        clones_in(x, y, s, min, false).contains(extended(x, y, s[at])),
    decreases s.len(),
{
    let before = clones_in(x, y, s.drop_last(), min, false);
    let all = clones_in(x, y, s, min, false);
    let r = extended(x, y, s[at]);
    if at == s.len() - 1 {
        assert(all[before.len() as int] == r);
    } else {
        a_long_run_is_a_clone(x, y, s.drop_last(), min, at);
        let z = choose|z: int| 0 <= z < before.len() && before[z] == r;
        assert(all[z] == r);
    }
}

proof fn by_length_is_ordered(s: Seq<Run>, at: int) -> (t: int)
    requires
        0 <= at < s.len() <= usize::MAX,
    ensures
        0 <= t < by_length(s).len(),
        by_length(s)[t] == s[at],
        forall|u: int| 0 <= u < t ==> (#[trigger] by_length(s)[u]).len >= s[at].len,
{
    let want = length_rows(s);
    let rows = sorted_rows(want);
    sorted_rows_are_sorted(want);
    sorted_rows_hold(want, want[at]);
    assert(want.contains(want[at]));
    let t = choose|t: int| 0 <= t < rows.len() && rows[t] == want[at];
    assert(want[at].1 == at);
    assert forall|u: int| 0 <= u < t implies (#[trigger] by_length(s)[u]).len >= s[at].len by {
        assert(row_order()(rows[u], rows[t]));
        sorted_rows_hold(want, rows[u]);
        assert(rows.contains(rows[u]));
        let m = choose|m: int| 0 <= m < want.len() && want[m] == rows[u];
        assert(want[m].1 == m);
    }
    t
}

proof fn kept_stays(s: Seq<Run>, i: int, kept: Seq<Run>, t: TokensView, cfg: Clones, control: Seq<Chars>, shares: Shares, x: int)
    requires
        0 <= i,
        0 <= x < kept.len(),
    ensures
        ({
            let out = kept_from(s, i, kept, false, t, cfg, control, shares);
            x < out.len() && out[x] == kept[x]
        }),
    decreases s.len() - i,
{
    if i < s.len() {
        if seen(kept, s[i]) {
            kept_stays(s, i + 1, kept, t, cfg, control, shares, x);
        } else {
            kept_stays(s, i + 1, kept.push(s[i]), t, cfg, control, shares, x);
        }
    }
}

proof fn a_clone_is_kept(
    s: Seq<Run>,
    i: int,
    kept: Seq<Run>,
    t: TokensView,
    cfg: Clones,
    control: Seq<Chars>,
    shares: Shares,
    at: int,
)
    requires
        0 <= i <= at < s.len(),
        forall|u: int| 0 <= u < at ==> (#[trigger] s[u]).len >= s[at].len,
        forall|u: int| 0 <= u < kept.len() ==> (#[trigger] kept[u]).len >= s[at].len,
    ensures
        ({
            let out = kept_from(s, i, kept, false, t, cfg, control, shares);
            exists|q: int| 0 <= q < out.len() && stands_for(#[trigger] out[q], s[at])
        }),
    decreases s.len() - i,
{
    let out = kept_from(s, i, kept, false, t, cfg, control, shares);
    if seen(kept, s[i]) {
        if i == at {
            let q = choose|q: int|
                0 <= q < kept.len() && meet(s[i].a, s[i].len, (#[trigger] kept[q]).a, kept[q].len) && meet(
                    s[i].b,
                    s[i].len,
                    kept[q].b,
                    kept[q].len,
                );
            kept_stays(s, i, kept, t, cfg, control, shares, q);
            assert(stands_for(out[q], s[at]));
        } else {
            a_clone_is_kept(s, i + 1, kept, t, cfg, control, shares, at);
        }
    } else {
        let more = kept.push(s[i]);
        if i == at {
            kept_stays(s, i + 1, more, t, cfg, control, shares, kept.len() as int);
            assert(stands_for(out[kept.len() as int], s[at]));
        } else {
            assert forall|u: int| 0 <= u < more.len() implies (#[trigger] more[u]).len >= s[at].len by {
                if u < kept.len() {
                    assert(more[u] == kept[u]);
                } else {
                    assert(s[i].len >= s[at].len);
                }
            }
            a_clone_is_kept(s, i + 1, more, t, cfg, control, shares, at);
        }
    }
}

proof fn kept_is_short(
    s: Seq<Run>,
    i: int,
    kept: Seq<Run>,
    same: bool,
    t: TokensView,
    cfg: Clones,
    control: Seq<Chars>,
    shares: Shares,
)
    requires
        0 <= i <= s.len(),
    ensures
        kept_from(s, i, kept, same, t, cfg, control, shares).len() <= kept.len() + s.len() - i,
    decreases s.len() - i,
{
    if i < s.len() {
        kept_is_short(s, i + 1, kept, same, t, cfg, control, shares);
        kept_is_short(s, i + 1, kept.push(s[i]), same, t, cfg, control, shares);
    }
}

proof fn runs_are_short(
    s: Seq<Row>,
    i: int,
    e: int,
    ta: TokensView,
    tb: TokensView,
    same: bool,
    cfg: Clones,
    control: Seq<Chars>,
    shares: Shares,
)
    requires
        i <= e,
    ensures
        runs_of(s, i, e, ta, tb, same, cfg, control, shares).len() <= e - i,
{
    let m = merged(s, i, e, cfg.k, None, Seq::empty());
    let c = clones_in(hashes_of(ta.list), hashes_of(tb.list), m, cfg.min_tokens, same);
    merged_is_short(s, i, e, cfg.k, None, Seq::empty());
    clones_in_is_short(hashes_of(ta.list), hashes_of(tb.list), m, cfg.min_tokens, same);
    sorted_rows_are_sorted(length_rows(c));
    kept_is_short(by_length(c), 0, Seq::empty(), same, ta, cfg, control, shares);
}

/// A match between two files is in a run of theirs that is kept, or stands for one.
proof fn a_match_is_kept(
    toks: Seq<TokensView>,
    s: Seq<Row>,
    g: int,
    e: int,
    x: int,
    i: int,
    j: int,
    n: int,
    cfg: Clones,
    control: Seq<Chars>,
    shares: Shares,
)
    requires
        cfg.k > 0,
        cfg.min_tokens <= n,
        toks.len() <= usize::MAX,
        forall|f: int| 0 <= f < toks.len() ==> (#[trigger] toks[f]).list.len() <= usize::MAX,
        matches_ok(toks, cfg.k, s),
        sorted_by(s, row_order()),
        s.len() <= usize::MAX,
        0 <= g <= x < e <= s.len(),
        forall|z: int| g <= z < e ==> (#[trigger] s[z]).0 == s[g].0 && s[z].1 == s[g].1,
        s[g].0 != s[g].1,
        0 <= i,
        0 <= j,
        i + n <= toks[s[g].0 as int].list.len(),
        j + n <= toks[s[g].1 as int].list.len(),
        hashes_of(toks[s[g].0 as int].list).subrange(i, i + n) == hashes_of(toks[s[g].1 as int].list).subrange(j, j + n),
        s[x].2 == i - j,
        i <= s[x].3,
        s[x].3 + cfg.k <= i + n,
    ensures
        ({
            let ta = toks[s[g].0 as int];
            let tb = toks[s[g].1 as int];
            let out = runs_of(s, g, e, ta, tb, false, cfg, control, shares);
            exists|q: int, r: Run| 0 <= q < out.len() && #[trigger] holds_both(r, i, j, n) && stands_for(#[trigger] out[q], r)
        }),
{
    let ta = toks[s[g].0 as int];
    let tb = toks[s[g].1 as int];
    assert(match_ok(toks, cfg.k, s[g]));
    assert(ta.list.len() <= usize::MAX && tb.list.len() <= usize::MAX);
    let a = hashes_of(ta.list);
    let b = hashes_of(tb.list);
    assert(in_step(s, g, e, cfg.k, a.len(), b.len())) by {
        assert forall|z: int| g <= z < e implies 0 <= (#[trigger] s[z]).3 && 0 <= s[z].3 - s[z].2 && s[z].3 + cfg.k <= a.len() && s[z].3
            - s[z].2 + cfg.k <= b.len() by {
            assert(match_ok(toks, cfg.k, s[z]));
        }
        assert forall|u: int, v: int| g <= u <= v < e implies (#[trigger] s[u]).2 < (#[trigger] s[v]).2 || (s[u].2 == s[v].2 && s[u].3
            <= s[v].3) by {
            if u < v {
                assert(row_order()(s[u], s[v]));
            }
        }
    }
    let m = merged(s, g, e, cfg.k, None, Seq::empty());
    a_match_is_in_a_run(s, g, e, cfg.k, None, Seq::empty(), x, a.len(), b.len());
    let r = choose|r: Run| m.contains(r) && #[trigger] holds_match(r, s[x].2 as int, s[x].3 as int, cfg.k, a.len(), b.len());
    let at = choose|at: int| 0 <= at < m.len() && m[at] == r;
    assert forall|t: int| i <= t < i + n implies #[trigger] a[t] == b[t - i + j] by {
        assert(a.subrange(i, i + n)[t - i] == a[t]);
        assert(b.subrange(j, j + n)[t - i] == b[t - i + j]);
    }
    extended_holds_both(a, b, r, i, j, n, s[x].3 as int, cfg.k);
    let big = extended(a, b, r);
    a_long_run_is_a_clone(a, b, m, cfg.min_tokens, at);
    let c = clones_in(a, b, m, cfg.min_tokens, false);
    merged_is_short(s, g, e, cfg.k, None, Seq::empty());
    clones_in_is_short(a, b, m, cfg.min_tokens, false);
    let w = choose|w: int| 0 <= w < c.len() && c[w] == big;
    let t = by_length_is_ordered(c, w);
    a_clone_is_kept(by_length(c), 0, Seq::empty(), ta, cfg, control, shares, t);
    let out = runs_of(s, g, e, ta, tb, false, cfg, control, shares);
    let q = choose|q: int| 0 <= q < out.len() && stands_for(#[trigger] out[q], by_length(c)[t]);
    assert(holds_both(big, i, j, n) && stands_for(out[q], big));
}

// ---------- clones ----------

pub(crate) proof fn same_files(s: Seq<Row>, i: int, j: int)
    requires
        0 <= i < j <= s.len(),
        forall|z: int| i <= z < j ==> (#[trigger] s[z]).0 == s[i].0 && s[z].1 == s[i].1,
    ensures
        j <= same_files_end(s, i, j) <= s.len(),
        forall|z: int| i <= z < same_files_end(s, i, j) ==> (#[trigger] s[z]).0 == s[i].0 && s[z].1 == s[i].1,
    decreases s.len() - j,
{
    if j < s.len() && s[j].0 == s[i].0 && s[j].1 == s[i].1 {
        same_files(s, i, j + 1);
    }
}

pub(crate) proof fn found_is_short(files: Seq<SourceFile>, toks: Seq<TokensView>, s: Seq<Row>, i: int, cfg: Clones, shares: Shares)
    requires
        0 <= i <= s.len(),
    ensures
        found_from(files, toks, s, i, cfg, shares).len() <= s.len() - i,
    decreases s.len() - i,
{
    if i < s.len() {
        let e = same_files_end(s, i, i + 1);
        same_files(s, i, i + 1);
        found_is_short(files, toks, s, e, cfg, shares);
        let fa = s[i].0;
        runs_are_short(
            s,
            i,
            e,
            toks[fa as int],
            toks[s[i].1 as int],
            fa == s[i].1,
            cfg,
            control_of(cfg, files[fa as int].lang),
            shares,
        );
    }
}

/// The group of candidate `x`: its clones are among those that are found.
proof fn group_of(files: Seq<SourceFile>, toks: Seq<TokensView>, s: Seq<Row>, i: int, x: int, cfg: Clones, shares: Shares) -> (g: (int, int))
    requires
        0 <= i <= x < s.len(),
    ensures
        i <= g.0 <= x < g.1 <= s.len(),
        forall|z: int| g.0 <= z < g.1 ==> (#[trigger] s[z]).0 == s[g.0].0 && s[z].1 == s[g.0].1,
        forall|q: int|
            0 <= q < found_in(files, toks, s, g.0, g.1, cfg, shares).len() ==> found_from(files, toks, s, i, cfg, shares).contains(
                #[trigger] found_in(files, toks, s, g.0, g.1, cfg, shares)[q],
            ),
    decreases s.len() - i,
{
    let e = same_files_end(s, i, i + 1);
    same_files(s, i, i + 1);
    let here = found_in(files, toks, s, i, e, cfg, shares);
    let rest = found_from(files, toks, s, e, cfg, shares);
    let all = found_from(files, toks, s, i, cfg, shares);
    assert(all == here + rest);
    if x < e {
        assert forall|q: int| 0 <= q < here.len() implies all.contains(#[trigger] here[q]) by {
            assert(all[q] == here[q]);
        }
        (i, e)
    } else {
        let g = group_of(files, toks, s, e, x, cfg, shares);
        let mine = found_in(files, toks, s, g.0, g.1, cfg, shares);
        assert forall|q: int| 0 <= q < mine.len() implies all.contains(#[trigger] mine[q]) by {
            assert(rest.contains(mine[q]));
            let z = choose|z: int| 0 <= z < rest.len() && rest[z] == mine[q];
            assert(all[here.len() + z] == mine[q]);
        }
        g
    }
}

proof fn sorted_still_holds(files: Seq<SourceFile>, toks: Seq<TokensView>, s: Seq<Found>, f: Found)
    requires
        s.contains(f),
        s.len() <= usize::MAX,
    ensures
        found_sorted(files, toks, s).contains(f),
{
    let at = choose|at: int| 0 <= at < s.len() && s[at] == f;
    let want = found_rows(files, toks, s);
    let rows = sorted_rows(want);
    sorted_rows_hold(want, want[at]);
    assert(want.contains(want[at]));
    let t = choose|t: int| 0 <= t < rows.len() && rows[t] == want[at];
    assert(want[at].5 == at);
    assert(found_sorted(files, toks, s)[t] == f);
}

/// Any run of at least k+w-1 tokens that two files share is found, where it has the least tokens of
/// a clone and its fingerprints are of no hash with too many places or files: some clone of the two
/// files is a run that holds it on both sides, or is no shorter than such a run and meets it on both
/// sides.
pub proof fn a_shared_run_is_found(
    files: Seq<SourceFile>,
    toks: Seq<TokensView>,
    fa: int,
    fb: int,
    i: int,
    j: int,
    n: int,
    cfg: Clones,
    shares: Shares,
)
    requires
        cfg.k > 0,
        cfg.w > 0,
        n >= cfg.k + cfg.w - 1,
        n >= cfg.min_tokens,
        0 <= fa < fb < toks.len() <= usize::MAX,
        forall|f: int| 0 <= f < toks.len() ==> (#[trigger] toks[f]).list.len() <= usize::MAX,
        candidates(toks, cfg).len() <= usize::MAX,
        0 <= i,
        0 <= j,
        i + n <= toks[fa].list.len(),
        j + n <= toks[fb].list.len(),
        hashes_of(toks[fa].list).subrange(i, i + n) == hashes_of(toks[fb].list).subrange(j, j + n),
        stretch_uncrowded(toks, fa, i, n, cfg),
    ensures
        ({
            let out = clones_of(files, toks, cfg, shares);
            exists|q: int, r: Run|
                0 <= q < out.len() && out[q].fa == fa && out[q].fb == fb && #[trigger] holds_both(r, i, j, n) && stands_for(
                    (#[trigger] out[q]).run,
                    r,
                )
        }),
{
    let a = hashes_of(toks[fa].list);
    let b = hashes_of(toks[fb].list);
    let pa = winnowed(a, cfg.k, cfg.w);
    let pb = winnowed(b, cfg.k, cfg.w);
    a_shared_run_shares_a_fingerprint(a, b, i, j, n, cfg.k, cfg.w);
    let (d, h) = choose|d: int, h: u64|
        0 <= d && d + cfg.k <= n && #[trigger] winnowed(a, cfg.k, cfg.w).contains(((i + d) as usize, h)) && winnowed(b, cfg.k, cfg.w).contains(
            ((j + d) as usize, h),
        );
    let x = choose|x: int| 0 <= x < pa.len() && pa[x] == ((i + d) as usize, h);
    let y = choose|y: int| 0 <= y < pb.len() && pb[y] == ((j + d) as usize, h);
    a_shared_hash_is_a_candidate(toks, fa, fb, x, y, cfg);
    candidates_ok(toks, cfg);
    let s = candidates(toks, cfg);
    let m = match_of(prints_of(toks[fa], fa, cfg.k, cfg.w)[x], prints_of(toks[fb], fb, cfg.k, cfg.w)[y]);
    let c = choose|c: int| 0 <= c < s.len() && s[c] == m;
    let (g, e) = group_of(files, toks, s, 0, c, cfg, shares);
    assert(s[c].0 == s[g].0 && s[c].1 == s[g].1);
    let control = control_of(cfg, files[fa].lang);
    a_match_is_kept(toks, s, g, e, c, i, j, n, cfg, control, shares);
    let runs = runs_of(s, g, e, toks[fa], toks[fb], false, cfg, control, shares);
    let (q, r) = choose|q: int, r: Run| 0 <= q < runs.len() && #[trigger] holds_both(r, i, j, n) && stands_for(#[trigger] runs[q], r);
    let mine = found_in(files, toks, s, g, e, cfg, shares);
    let all = found_from(files, toks, s, 0, cfg, shares);
    assert(mine[q].run == runs[q]);
    assert(all.contains(mine[q]));
    found_is_short(files, toks, s, 0, cfg, shares);
    sorted_still_holds(files, toks, all, mine[q]);
    let out = clones_of(files, toks, cfg, shares);
    let z = choose|z: int| 0 <= z < out.len() && out[z] == mine[q];
    assert(out[z].fa == fa && out[z].fb == fb && holds_both(r, i, j, n) && stands_for(out[z].run, r));
}

} // verus!
