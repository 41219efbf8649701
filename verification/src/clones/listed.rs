//! What holds of every report of clones: how long its pairs are, how they are ordered, when they are
//! tables, and that the files alone decide it.

use vstd::prelude::*;

use crate::clones::detect::{
    all_tokens_of, clones_of, found_from, found_in, found_rows, pair_of, pairs_of, rank, report_of, same_files_end, CloneKind, Found,
    PairView,
};
use crate::clones::found::{candidates_ok, found_is_short, same_files};
use crate::clones::runs::{candidates, clones_are_long_and_apart, is_clone, match_ok, matches_ok, runs_of};
use crate::clones::tables::{control_of, Shares};
use crate::clones::tokens::{tokens_in, TokensView};
use crate::config::{Clones, Tests};
use crate::discover::SourceFile;
use crate::order::{before_is_irreflexive, before_is_total, before_is_transitive};
use crate::sorting::{row_le, row_order, sorted_rows, sorted_rows_are_sorted, sorted_rows_hold, Row};
use crate::text::{before, Chars};
use crate::tree::{a_text_reads_one_way, reads_as, Nodes};

verus! {

/// One pair may stand before another: it is longer; of equally long ones the first side's path and
/// line decide, then the second's.
pub open spec fn pair_le(p: PairView, q: PairView) -> bool {
    if p.tokens != q.tokens {
        p.tokens > q.tokens
    } else if p.a.file != q.a.file {
        before(p.a.file, q.a.file)
    } else if p.a.start_line != q.a.start_line {
        p.a.start_line < q.a.start_line
    } else if p.b.file != q.b.file {
        before(p.b.file, q.b.file)
    } else {
        p.b.start_line <= q.b.start_line
    }
}

/// Every pair has the least tokens of a clone; the longest stand first; a pair is a table exactly
/// where it says what its container is and how many entries it has.
pub open spec fn well_listed(pairs: Seq<PairView>, cfg: Clones) -> bool {
    &&& forall|i: int| 0 <= i < pairs.len() ==> (#[trigger] pairs[i]).tokens >= cfg.min_tokens
    &&& forall|i: int, j: int| 0 <= i < j < pairs.len() ==> pair_le(#[trigger] pairs[i], #[trigger] pairs[j])
    &&& forall|i: int|
        0 <= i < pairs.len() ==> ((#[trigger] pairs[i]).kind == CloneKind::Table) == (pairs[i].container_kind is Some)
    &&& forall|i: int|
        0 <= i < pairs.len() ==> ((#[trigger] pairs[i]).kind == CloneKind::Table) == (pairs[i].entry_count is Some)
}

// ---------- ranks ----------

proof fn rank_grows(files: Seq<SourceFile>, a: Chars, b: Chars, n: int)
    requires
        0 <= n <= files.len(),
        before(a, b),
    ensures
        rank(files, a, n) <= rank(files, b, n) <= n,
        (exists|x: int| 0 <= x < n && (#[trigger] files[x]).path@ == a) ==> rank(files, a, n) < rank(files, b, n),
    decreases n,
{
    if n > 0 {
        rank_grows(files, a, b, n - 1);
        let p = files[n - 1].path@;
        if before(p, a) {
            before_is_transitive(p, a, b);
        }
        if p == a {
            before_is_irreflexive(a);
        }
    }
}

/// Paths of files are ranked as they are ordered.
proof fn ranks_order(files: Seq<SourceFile>, x: int, y: int)
    requires
        0 <= x < files.len(),
        0 <= y < files.len(),
    ensures
        ({
            let n = files.len() as int;
            let a = files[x].path@;
            let b = files[y].path@;
            &&& rank(files, a, n) == rank(files, b, n) <==> a == b
            &&& rank(files, a, n) < rank(files, b, n) ==> before(a, b)
        }),
{
    let n = files.len() as int;
    let a = files[x].path@;
    let b = files[y].path@;
    if a != b {
        before_is_total(a, b);
        if before(a, b) {
            rank_grows(files, a, b, n);
        } else {
            rank_grows(files, b, a, n);
        }
    }
}

proof fn rank_is_small(files: Seq<SourceFile>, a: Chars, n: int)
    requires
        0 <= n,
    ensures
        rank(files, a, n) <= n,
    decreases n,
{
    if n > 0 {
        rank_is_small(files, a, n - 1);
    }
}

// ---------- clones ----------

/// A clone has the least tokens and lies in files that there are.
spec fn good(toks: Seq<TokensView>, f: Found, cfg: Clones) -> bool {
    f.fa < toks.len() && f.fb < toks.len() && f.run.len >= cfg.min_tokens
}

proof fn found_are_good(files: Seq<SourceFile>, toks: Seq<TokensView>, s: Seq<Row>, i: int, cfg: Clones, shares: Shares)
    requires
        0 <= i <= s.len() <= usize::MAX,
        toks.len() <= usize::MAX,
        matches_ok(toks, cfg.k, s),
    ensures
        forall|q: int|
            0 <= q < found_from(files, toks, s, i, cfg, shares).len() ==> good(
                toks,
                #[trigger] found_from(files, toks, s, i, cfg, shares)[q],
                cfg,
            ),
    decreases s.len() - i,
{
    if i < s.len() {
        let e = same_files_end(s, i, i + 1);
        same_files(s, i, i + 1);
        found_are_good(files, toks, s, e, cfg, shares);
        assert(match_ok(toks, cfg.k, s[i]));
        let fa = s[i].0;
        let fb = s[i].1;
        let control = control_of(cfg, files[fa as int].lang);
        let ta = toks[fa as int];
        let tb = toks[fb as int];
        clones_are_long_and_apart(s, i, e, ta, tb, fa == fb, cfg, control, shares);
        let runs = runs_of(s, i, e, ta, tb, fa == fb, cfg, control, shares);
        let here = found_in(files, toks, s, i, e, cfg, shares);
        let rest = found_from(files, toks, s, e, cfg, shares);
        let all = found_from(files, toks, s, i, cfg, shares);
        assert forall|q: int| 0 <= q < all.len() implies good(toks, #[trigger] all[q], cfg) by {
            if q < here.len() {
                assert(all[q] == here[q]);
                assert(is_clone(runs[q], cfg.min_tokens, fa == fb));
            } else {
                assert(all[q] == rest[q - here.len()]);
            }
        }
    }
}

/// The clones are the found ones in the order of their rows.
proof fn clone_is_found(files: Seq<SourceFile>, toks: Seq<TokensView>, cfg: Clones, shares: Shares, i: int) -> (m: int)
    requires
        candidates(toks, cfg).len() <= usize::MAX,
        0 <= i < clones_of(files, toks, cfg, shares).len(),
    ensures
        ({
            let all = found_from(files, toks, candidates(toks, cfg), 0, cfg, shares);
            let want = found_rows(files, toks, all);
            &&& 0 <= m < all.len()
            &&& clones_of(files, toks, cfg, shares)[i] == all[m]
            &&& sorted_rows(want)[i] == want[m]
        }),
{
    let all = found_from(files, toks, candidates(toks, cfg), 0, cfg, shares);
    let want = found_rows(files, toks, all);
    let rows = sorted_rows(want);
    found_is_short(files, toks, candidates(toks, cfg), 0, cfg, shares);
    sorted_rows_hold(want, rows[i]);
    assert(rows.contains(rows[i]));
    let m = choose|m: int| 0 <= m < want.len() && want[m] == rows[i];
    assert(want[m].5 == m);
    m
}

/// The pairs of a report are well listed.
pub proof fn pairs_are_well_listed(files: Seq<SourceFile>, toks: Seq<TokensView>, cfg: Clones, shares: Shares)
    requires
        files.len() == toks.len() <= usize::MAX,
        forall|f: int| 0 <= f < toks.len() ==> (#[trigger] toks[f]).list.len() <= usize::MAX,
        candidates(toks, cfg).len() <= usize::MAX,
    ensures
        well_listed(report_of(files, toks, cfg, shares).pairs, cfg),
{
    let s = candidates(toks, cfg);
    let all = found_from(files, toks, s, 0, cfg, shares);
    let want = found_rows(files, toks, all);
    let rows = sorted_rows(want);
    let out = clones_of(files, toks, cfg, shares);
    let pairs = pairs_of(files, toks, cfg, shares);
    candidates_ok(toks, cfg);
    found_are_good(files, toks, s, 0, cfg, shares);
    sorted_rows_are_sorted(want);
    assert forall|i: int| 0 <= i < pairs.len() implies (#[trigger] pairs[i]).tokens >= cfg.min_tokens by {
        let m = clone_is_found(files, toks, cfg, shares, i);
        assert(good(toks, all[m], cfg));
        assert(pairs[i] == pair_of(files, toks, out[i], cfg, shares));
    }
    assert forall|i: int, j: int| 0 <= i < j < pairs.len() implies pair_le(#[trigger] pairs[i], #[trigger] pairs[j]) by {
        let x = clone_is_found(files, toks, cfg, shares, i);
        let y = clone_is_found(files, toks, cfg, shares, j);
        assert(good(toks, all[x], cfg) && good(toks, all[y], cfg));
        assert(row_order()(rows[i], rows[j]));
        assert(row_le(want[x], want[y]));
        assert(pairs[i] == pair_of(files, toks, all[x], cfg, shares));
        assert(pairs[j] == pair_of(files, toks, all[y], cfg, shares));
        ranks_order(files, all[x].fa as int, all[y].fa as int);
        ranks_order(files, all[x].fb as int, all[y].fb as int);
        let n = files.len() as int;
        rank_is_small(files, files[all[x].fa as int].path@, n);
        rank_is_small(files, files[all[y].fa as int].path@, n);
        rank_is_small(files, files[all[x].fb as int].path@, n);
        rank_is_small(files, files[all[y].fb as int].path@, n);
    }
}

/// The tokens of files are decided by the files: there is one list of them, and so one report.
pub proof fn files_have_one_report(
    files: Seq<SourceFile>,
    a: Seq<TokensView>,
    b: Seq<TokensView>,
    cfg: Clones,
    tests: Tests,
    shares: Shares,
)
    requires
        all_tokens_of(a, files, tests),
        all_tokens_of(b, files, tests),
    ensures
        a == b,
        report_of(files, a, cfg, shares) == report_of(files, b, cfg, shares),
{
    assert forall|i: int| 0 <= i < files.len() implies a[i] == b[i] by {
        let f = files[i];
        assert(crate::clones::tokens::tokens_of(a[i], f, tests));
        assert(crate::clones::tokens::tokens_of(b[i], f, tests));
        let x = choose|x: Option<Nodes>| #[trigger] reads_as(f.lang, f.content@, x) && a[i] == tokens_in(x, f.lang, tests);
        let y = choose|y: Option<Nodes>| #[trigger] reads_as(f.lang, f.content@, y) && b[i] == tokens_in(y, f.lang, tests);
        a_text_reads_one_way(f.lang, f.content@, x, y);
    }
    assert(a =~= b);
}

} // verus!
