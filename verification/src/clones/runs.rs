//! Runs of tokens that two places share.

use vstd::prelude::*;

use crate::clones::tables::{self_match, table_self_match, Shares};
use crate::clones::tokens::{hashes_of, Token, Tokens, TokensView};
use crate::clones::winnow::{at_least_one, winnow, winnowed};
use crate::config::Clones;
use crate::sorting::{sort_rows, sorted_rows, sorted_rows_are_sorted, sorted_rows_hold, Row};
use crate::text::Chars;

verus! {

/// The tokens of files by their contents.
pub open spec fn views(toks: Seq<Tokens>) -> Seq<TokensView> {
    Seq::new(toks.len(), |i: int| toks[i]@)
}

/// Every file's tokens are in order.
pub open spec fn all_ok(toks: Seq<Tokens>) -> bool {
    forall|i: int| 0 <= i < toks.len() ==> (#[trigger] toks[i]).ok()
}

// ---------- fingerprints ----------

/// The fingerprints of a file: hash, file and position.
pub open spec fn prints_of(t: TokensView, fi: int, k: usize, w: usize) -> Seq<Row> {
    let p = winnowed(hashes_of(t.list), k, w);
    Seq::new(p.len(), |i: int| (p[i].1 as i128, fi as i128, p[i].0 as i128, 0, 0, 0))
}

/// The fingerprints of the first `n` files.
pub open spec fn all_prints(toks: Seq<TokensView>, k: usize, w: usize, n: int) -> Seq<Row>
    decreases n,
{
    if n <= 0 {
        Seq::empty()
    } else {
        all_prints(toks, k, w, n - 1) + prints_of(toks[n - 1], n - 1, k, w)
    }
}

/// A fingerprint's run of tokens lies in its file.
pub open spec fn print_ok(toks: Seq<TokensView>, k: usize, r: Row) -> bool {
    &&& 0 <= r.1 < toks.len()
    &&& 0 <= r.2
    &&& r.2 + at_least_one(k) <= toks[r.1 as int].list.len()
}

/// Every fingerprint lies in its file.
pub open spec fn prints_ok(toks: Seq<TokensView>, k: usize, s: Seq<Row>) -> bool {
    forall|i: int| 0 <= i < s.len() ==> print_ok(toks, k, #[trigger] s[i])
}

fn prints(toks: &Vec<Tokens>, k: usize, w: usize) -> (out: Vec<Row>)
    requires
        all_ok(toks@),
    ensures
        out@ == all_prints(views(toks@), k, w, toks.len() as int),
        prints_ok(views(toks@), k, out@),
{
    let ghost view = views(toks@);
    let mut out: Vec<Row> = Vec::new();
    let mut n: usize = 0;
    assert(out@ =~= Seq::<Row>::empty());
    while n < toks.len()
        invariant
            n <= toks.len(),
            all_ok(toks@),
            view == views(toks@),
            out@ == all_prints(view, k, w, n as int),
            prints_ok(view, k, out@),
        decreases toks.len() - n,
    {
        let ghost was = out@;
        assert(toks@[n as int].ok());
        let p = winnow(&toks[n].hashes, k, w);
        let ghost more = prints_of(view[n as int], n as int, k, w);
        let mut i: usize = 0;
        assert(was + more.take(0) =~= was);
        while i < p.len()
            invariant
                i <= p.len(),
                n < toks.len(),
                view == views(toks@),
                p@ == winnowed(hashes_of(view[n as int].list), k, w),
                more == prints_of(view[n as int], n as int, k, w),
                forall|i: int| 0 <= i < p@.len() ==> (#[trigger] p@[i]).0 + at_least_one(k) <= view[n as int].list.len(),
                prints_ok(view, k, out@),
                out@ == was + more.take(i as int),
            decreases p.len() - i,
        {
            let x: (usize, u64) = p[i];
            assert(p@[i as int].0 + at_least_one(k) <= view[n as int].list.len());
            out.push((x.1 as i128, n as i128, x.0 as i128, 0, 0, 0));
            assert(more.take(i + 1) =~= more.take(i as int).push(more[i as int]));
            assert(was + more.take(i as int).push(more[i as int]) =~= (was + more.take(i as int)).push(more[i as int]));
            i = i + 1;
        }
        assert(more.take(more.len() as int) =~= more);
        n = n + 1;
    }
    out
}

pub(crate) proof fn sorted_prints_ok(toks: Seq<TokensView>, k: usize, s: Seq<Row>)
    requires
        prints_ok(toks, k, s),
    ensures
        prints_ok(toks, k, sorted_rows(s)),
        sorted_rows(s).len() == s.len(),
{
    sorted_rows_are_sorted(s);
    let t = sorted_rows(s);
    assert forall|i: int| 0 <= i < t.len() implies print_ok(toks, k, #[trigger] t[i]) by {
        sorted_rows_hold(s, t[i]);
        assert(t.contains(t[i]));
        let j = choose|j: int| 0 <= j < s.len() && s[j] == t[i];
        assert(print_ok(toks, k, s[j]));
    }
}

// ---------- candidate matches ----------

/// Where the fingerprints that share the hash of fingerprint `i` end.
pub open spec fn same_hash_end(s: Seq<Row>, i: int, j: int) -> int
    decreases s.len() - j,
{
    if 0 <= i < j < s.len() && s[j].0 == s[i].0 {
        same_hash_end(s, i, j + 1)
    } else {
        j
    }
}

/// How many files the fingerprints from `i` to `e`, in file order, lie in.
pub open spec fn files_in(s: Seq<Row>, i: int, e: int) -> nat
    decreases e - i,
{
    if e <= i {
        0
    } else if e == i + 1 {
        1
    } else {
        files_in(s, i, e - 1) + (if s[e - 1].1 != s[e - 2].1 {
            1nat
        } else {
            0nat
        })
    }
}

/// A hash is looked at when it has two places or more, and neither too many places nor too many files.
pub open spec fn admitted(s: Seq<Row>, i: int, e: int, cfg: Clones) -> bool {
    2 <= e - i <= cfg.max_locations && files_in(s, i, e) <= cfg.max_files
}

/// A match of two places: the files, the diagonal and the first place.
pub open spec fn match_of(x: Row, y: Row) -> Row {
    (x.1, y.1, (x.2 - y.2) as i128, x.2, 0, 0)
}

/// The matches of place `i` with the places from `j` to `e`, but those that overlap it.
pub open spec fn matches_at(s: Seq<Row>, i: int, j: int, e: int, k: usize) -> Seq<Row>
    decreases e - j,
{
    if j >= e {
        Seq::empty()
    } else if s[i].1 == s[j].1 && s[j].2 - s[i].2 < k {
        matches_at(s, i, j + 1, e, k)
    } else {
        seq![match_of(s[i], s[j])] + matches_at(s, i, j + 1, e, k)
    }
}

/// The matches among the places from `i` to `e`.
pub open spec fn matches_among(s: Seq<Row>, i: int, e: int, k: usize) -> Seq<Row>
    decreases e - i,
{
    if i >= e {
        Seq::empty()
    } else {
        matches_at(s, i, i + 1, e, k) + matches_among(s, i + 1, e, k)
    }
}

/// The matches of the fingerprints from `i` on.
pub open spec fn matches_from(s: Seq<Row>, i: int, cfg: Clones) -> Seq<Row>
    decreases s.len() - i,
{
    if i < 0 || i >= s.len() {
        Seq::empty()
    } else {
        let e = same_hash_end(s, i, i + 1);
        (if admitted(s, i, e, cfg) {
            matches_among(s, i, e, cfg.k)
        } else {
            Seq::empty()
        }) + (if i < e <= s.len() {
            matches_from(s, e, cfg)
        } else {
            Seq::empty()
        })
    }
}

/// The candidate matches between files, in the order of their files, diagonals and places.
pub open spec fn candidates(toks: Seq<TokensView>, cfg: Clones) -> Seq<Row> {
    sorted_rows(matches_from(sorted_rows(all_prints(toks, cfg.k, cfg.w, toks.len() as int)), 0, cfg))
}

/// Both places of a match lie in their files.
pub open spec fn match_ok(toks: Seq<TokensView>, k: usize, m: Row) -> bool {
    &&& 0 <= m.0 < toks.len()
    &&& 0 <= m.1 < toks.len()
    &&& 0 <= m.3
    &&& 0 <= m.3 - m.2
    &&& m.3 + at_least_one(k) <= toks[m.0 as int].list.len()
    &&& m.3 - m.2 + at_least_one(k) <= toks[m.1 as int].list.len()
}

/// Every match lies in its files.
pub open spec fn matches_ok(toks: Seq<TokensView>, k: usize, s: Seq<Row>) -> bool {
    forall|i: int| 0 <= i < s.len() ==> match_ok(toks, k, #[trigger] s[i])
}

fn add_matches_at(toks: Ghost<Seq<TokensView>>, s: &Vec<Row>, i: usize, e: usize, k: usize, out: &mut Vec<Row>)
    requires
        i < e <= s.len(),
        toks@.len() <= usize::MAX,
        forall|j: int| 0 <= j < toks@.len() ==> (#[trigger] toks@[j]).list.len() <= usize::MAX,
        prints_ok(toks@, k, s@),
        matches_ok(toks@, k, old(out)@),
    ensures
        final(out)@ == old(out)@ + matches_at(s@, i as int, i + 1, e as int, k),
        matches_ok(toks@, k, final(out)@),
{
    let x: Row = s[i];
    let ghost whole = old(out)@ + matches_at(s@, i as int, i + 1, e as int, k);
    let mut j: usize = i + 1;
    while j < e
        invariant
            i < j <= e <= s.len(),
            x == s@[i as int],
            toks@.len() <= usize::MAX,
            forall|j: int| 0 <= j < toks@.len() ==> (#[trigger] toks@[j]).list.len() <= usize::MAX,
            prints_ok(toks@, k, s@),
            matches_ok(toks@, k, out@),
            whole == out@ + matches_at(s@, i as int, j as int, e as int, k),
        decreases e - j,
    {
        let y: Row = s[j];
        proof {
            assert(print_ok(toks@, k, s@[i as int]));
            assert(print_ok(toks@, k, s@[j as int]));
            assert(toks@[x.1 as int].list.len() <= usize::MAX);
            assert(toks@[y.1 as int].list.len() <= usize::MAX);
        }
        if x.1 == y.1 && y.2 - x.2 < k as i128 {
        } else {
            let ghost was = out@;
            out.push((x.1, y.1, x.2 - y.2, x.2, 0, 0));
            proof {
                let m = match_of(x, y);
                let rest = matches_at(s@, i as int, j + 1, e as int, k);
                assert(was + (seq![m] + rest) =~= out@ + rest);
            }
        }
        j = j + 1;
    }
    assert(out@ + Seq::<Row>::empty() =~= out@);
}

fn add_matches_among(toks: Ghost<Seq<TokensView>>, s: &Vec<Row>, from: usize, e: usize, k: usize, out: &mut Vec<Row>)
    requires
        from <= e <= s.len(),
        toks@.len() <= usize::MAX,
        forall|j: int| 0 <= j < toks@.len() ==> (#[trigger] toks@[j]).list.len() <= usize::MAX,
        prints_ok(toks@, k, s@),
        matches_ok(toks@, k, old(out)@),
    ensures
        final(out)@ == old(out)@ + matches_among(s@, from as int, e as int, k),
        matches_ok(toks@, k, final(out)@),
{
    let ghost whole = old(out)@ + matches_among(s@, from as int, e as int, k);
    let mut i: usize = from;
    while i < e
        invariant
            i <= e <= s.len(),
            toks@.len() <= usize::MAX,
            forall|j: int| 0 <= j < toks@.len() ==> (#[trigger] toks@[j]).list.len() <= usize::MAX,
            prints_ok(toks@, k, s@),
            matches_ok(toks@, k, out@),
            whole == out@ + matches_among(s@, i as int, e as int, k),
        decreases e - i,
    {
        let ghost was = out@;
        add_matches_at(toks, s, i, e, k, out);
        proof {
            let here = matches_at(s@, i as int, i + 1, e as int, k);
            let rest = matches_among(s@, i + 1, e as int, k);
            assert(was + (here + rest) =~= (was + here) + rest);
        }
        i = i + 1;
    }
    assert(out@ + Seq::<Row>::empty() =~= out@);
}

fn count_files(s: &Vec<Row>, i: usize, e: usize) -> (n: usize)
    requires
        i < e <= s.len(),
    ensures
        n == files_in(s@, i as int, e as int),
{
    let mut n: usize = 1;
    let mut j: usize = i + 1;
    while j < e
        invariant
            i < j <= e <= s.len(),
            n <= j - i,
            n == files_in(s@, i as int, j as int),
        decreases e - j,
    {
        if s[j].1 != s[j - 1].1 {
            n = n + 1;
        }
        j = j + 1;
    }
    n
}

fn find_matches(toks: Ghost<Seq<TokensView>>, s: &Vec<Row>, cfg: &Clones) -> (out: Vec<Row>)
    requires
        toks@.len() <= usize::MAX,
        forall|j: int| 0 <= j < toks@.len() ==> (#[trigger] toks@[j]).list.len() <= usize::MAX,
        prints_ok(toks@, cfg.k, s@),
    ensures
        out@ == matches_from(s@, 0, *cfg),
        matches_ok(toks@, cfg.k, out@),
{
    let ghost whole = matches_from(s@, 0, *cfg);
    let mut out: Vec<Row> = Vec::new();
    let mut i: usize = 0;
    assert(out@ + whole =~= whole);
    while i < s.len()
        invariant
            i <= s.len(),
            toks@.len() <= usize::MAX,
            forall|j: int| 0 <= j < toks@.len() ==> (#[trigger] toks@[j]).list.len() <= usize::MAX,
            prints_ok(toks@, cfg.k, s@),
            matches_ok(toks@, cfg.k, out@),
            whole == out@ + matches_from(s@, i as int, *cfg),
        decreases s.len() - i,
    {
        let mut e: usize = i + 1;
        while e < s.len() && s[e].0 == s[i].0
            invariant
                i < e <= s.len(),
                same_hash_end(s@, i as int, i + 1) == same_hash_end(s@, i as int, e as int),
            decreases s.len() - e,
        {
            e = e + 1;
        }
        let ghost was = out@;
        let ghost here = if admitted(s@, i as int, e as int, *cfg) {
            matches_among(s@, i as int, e as int, cfg.k)
        } else {
            Seq::empty()
        };
        if e - i >= 2 && e - i <= cfg.max_locations && count_files(s, i, e) <= cfg.max_files {
            add_matches_among(toks, s, i, e, cfg.k, &mut out);
        } else {
            assert(was + here =~= was);
        }
        proof {
            let rest = matches_from(s@, e as int, *cfg);
            assert(was + (here + rest) =~= (was + here) + rest);
        }
        i = e;
    }
    assert(out@ + Seq::<Row>::empty() =~= out@);
    out
}

pub(crate) proof fn sorted_matches_ok(toks: Seq<TokensView>, k: usize, s: Seq<Row>)
    requires
        matches_ok(toks, k, s),
    ensures
        matches_ok(toks, k, sorted_rows(s)),
        sorted_rows(s).len() == s.len(),
{
    sorted_rows_are_sorted(s);
    let t = sorted_rows(s);
    assert forall|i: int| 0 <= i < t.len() implies match_ok(toks, k, #[trigger] t[i]) by {
        sorted_rows_hold(s, t[i]);
        assert(t.contains(t[i]));
        let j = choose|j: int| 0 <= j < s.len() && s[j] == t[i];
        assert(match_ok(toks, k, s[j]));
    }
}

/// The candidate matches between files.
pub fn find_candidates(toks: &Vec<Tokens>, cfg: &Clones) -> (out: Vec<Row>)
    requires
        all_ok(toks@),
    ensures
        out@ == candidates(views(toks@), *cfg),
        matches_ok(views(toks@), cfg.k, out@),
{
    let ghost view = views(toks@);
    assert forall|j: int| 0 <= j < view.len() implies (#[trigger] view[j]).list.len() <= usize::MAX by {
        assert(view[j].list == toks@[j].list@);
        assert(toks@[j].list.len() <= usize::MAX);
    }
    assert(toks.len() <= usize::MAX);
    let p = prints(toks, cfg.k, cfg.w);
    proof {
        sorted_prints_ok(view, cfg.k, p@);
    }
    let s = sort_rows(&p);
    let m = find_matches(Ghost(view), &s, cfg);
    proof {
        sorted_matches_ok(view, cfg.k, m@);
    }
    sort_rows(&m)
}

// ---------- runs ----------

/// A run of tokens that two places share.
#[derive(Clone, Copy)]
pub struct Run {
    pub a: usize,
    pub b: usize,
    pub len: usize,
}

/// A run lies in both files.
pub open spec fn run_ok(r: Run, la: nat, lb: nat) -> bool {
    r.a < la && r.b < lb && r.a + r.len <= la && r.b + r.len <= lb
}

/// Every run lies in both files.
pub open spec fn runs_ok(s: Seq<Run>, la: nat, lb: nat) -> bool {
    forall|i: int| 0 <= i < s.len() ==> run_ok(#[trigger] s[i], la, lb)
}

/// The run that a match begins.
pub open spec fn begun(m: Row, k: usize) -> Run {
    Run { a: m.3 as usize, b: (m.3 - m.2) as usize, len: k }
}

/// A match goes on with a run: it lies on its diagonal and reaches it.
pub open spec fn goes_on(r: Run, m: Row) -> bool {
    m.2 == r.a - r.b && m.3 <= r.a + r.len
}

/// A run up to the end of a match.
pub open spec fn reaching(r: Run, m: Row, k: usize) -> Run {
    Run {
        a: r.a,
        b: r.b,
        len: if m.3 + k >= r.a {
            (m.3 + k - r.a) as usize
        } else {
            0
        },
    }
}

/// The runs that the matches from `i` to `e` make, after those that are done and the open one.
pub open spec fn merged(s: Seq<Row>, i: int, e: int, k: usize, open: Option<Run>, done: Seq<Run>) -> Seq<Run>
    decreases e - i,
{
    if i >= e {
        match open {
            Some(r) => done.push(r),
            None => done,
        }
    } else {
        match open {
            Some(r) => if goes_on(r, s[i]) {
                merged(s, i + 1, e, k, Some(reaching(r, s[i], k)), done)
            } else {
                merged(s, i + 1, e, k, Some(begun(s[i], k)), done.push(r))
            },
            None => merged(s, i + 1, e, k, Some(begun(s[i], k)), done),
        }
    }
}

/// How many tokens before two places are equal.
pub open spec fn back(x: Seq<u64>, y: Seq<u64>, i: int, j: int) -> nat
    decreases i,
{
    if 0 < i <= x.len() && 0 < j <= y.len() && x[i - 1] == y[j - 1] {
        1 + back(x, y, i - 1, j - 1)
    } else {
        0
    }
}

/// How many tokens from two places on are equal.
pub open spec fn forth(x: Seq<u64>, y: Seq<u64>, i: int, j: int) -> nat
    decreases x.len() - i,
{
    if 0 <= i < x.len() && 0 <= j < y.len() && x[i] == y[j] {
        1 + forth(x, y, i + 1, j + 1)
    } else {
        0
    }
}

/// A run as far as the tokens on both sides of it are equal: fingerprints sample the runs of `k`
/// tokens, so the ends of a merged run fall short.
pub open spec fn extended(x: Seq<u64>, y: Seq<u64>, r: Run) -> Run {
    let n = back(x, y, r.a as int, r.b as int);
    let m = forth(x, y, r.a + r.len, r.b + r.len);
    Run { a: (r.a - n) as usize, b: (r.b - n) as usize, len: (r.len + n + m) as usize }
}

/// Two stretches have a token in common.
pub open spec fn meet(s1: usize, l1: usize, s2: usize, l2: usize) -> bool {
    s1 < s2 + l2 && s2 < s1 + l1
}

/// A run is long enough to be a clone. Within one file, stretches that meet each other are a
/// repeating pattern (a table, an unrolled loop), not a copy.
pub open spec fn is_clone(r: Run, min: usize, same: bool) -> bool {
    r.len >= min && !(same && meet(r.a, r.len, r.b, r.len))
}

/// The runs that are clones, as far as the tokens on both sides of them are equal.
pub open spec fn clones_in(x: Seq<u64>, y: Seq<u64>, s: Seq<Run>, min: usize, same: bool) -> Seq<Run>
    decreases s.len(),
{
    if s.len() == 0 {
        Seq::empty()
    } else {
        let before = clones_in(x, y, s.drop_last(), min, same);
        let r = extended(x, y, s.last());
        if is_clone(r, min, same) {
            before.push(r)
        } else {
            before
        }
    }
}

/// The rows by which runs are ordered: the longest first.
pub open spec fn length_rows(s: Seq<Run>) -> Seq<Row> {
    Seq::new(s.len(), |i: int| (-s[i].len as i128, i as i128, 0, 0, 0, 0))
}

/// The runs, the longest first; of equally long ones the first stays first.
pub open spec fn by_length(s: Seq<Run>) -> Seq<Run> {
    let rows = sorted_rows(length_rows(s));
    Seq::new(rows.len(), |i: int| s[rows[i].1 as int])
}

/// Both stretches of a run meet those of a run that is kept: the same clone seen at an offset.
pub open spec fn seen(kept: Seq<Run>, r: Run) -> bool {
    exists|j: int|
        0 <= j < kept.len() && meet(r.a, r.len, (#[trigger] kept[j]).a, kept[j].len) && meet(r.b, r.len, kept[j].b, kept[j].len)
}

/// The last token of a stretch.
pub open spec fn last_token(n: nat, start: usize, len: usize) -> int {
    if 1 <= start + len <= n {
        start + len - 1
    } else {
        n - 1
    }
}

/// The bytes of a stretch: from the start of its first token to the end of its last.
pub open spec fn bytes_of_run(list: Seq<Token>, start: usize, len: usize) -> (usize, usize) {
    (list[start as int].start, list[last_token(list.len(), start, len)].end)
}

/// Both stretches of a run lie in one uniform table of a file.
pub open spec fn within_table(t: TokensView, r: Run, cfg: Clones, control: Seq<Chars>, shares: Shares) -> bool {
    match t.tree {
        Some(nodes) => self_match(
            nodes,
            bytes_of_run(t.list, r.a, r.len),
            bytes_of_run(t.list, r.b, r.len),
            cfg,
            control,
            shares,
        ),
        None => false,
    }
}

/// The runs that are kept, from `i` on: but those seen at an offset, and those that match two parts
/// of one table, which are dropped as if never found.
pub open spec fn kept_from(
    s: Seq<Run>,
    i: int,
    kept: Seq<Run>,
    same: bool,
    t: TokensView,
    cfg: Clones,
    control: Seq<Chars>,
    shares: Shares,
) -> Seq<Run>
    decreases s.len() - i,
{
    if i < 0 || i >= s.len() {
        kept
    } else if seen(kept, s[i]) || (same && cfg.drop_same_container_self_match && within_table(t, s[i], cfg, control, shares)) {
        kept_from(s, i + 1, kept, same, t, cfg, control, shares)
    } else {
        kept_from(s, i + 1, kept.push(s[i]), same, t, cfg, control, shares)
    }
}

/// The clones of two files: the matches from `i` to `e` of the candidates.
pub open spec fn runs_of(
    s: Seq<Row>,
    i: int,
    e: int,
    ta: TokensView,
    tb: TokensView,
    same: bool,
    cfg: Clones,
    control: Seq<Chars>,
    shares: Shares,
) -> Seq<Run> {
    let m = merged(s, i, e, cfg.k, None, Seq::empty());
    let c = clones_in(hashes_of(ta.list), hashes_of(tb.list), m, cfg.min_tokens, same);
    kept_from(by_length(c), 0, Seq::empty(), same, ta, cfg, control, shares)
}

fn merge(s: &Vec<Row>, from: usize, e: usize, k: usize, toks: Ghost<Seq<TokensView>>, la: usize, lb: usize) -> (out: Vec<Run>)
    requires
        from <= e <= s.len(),
        matches_ok(toks@, k, s@),
        forall|i: int|
            from <= i < e ==> toks@[(#[trigger] s@[i]).0 as int].list.len() == la && toks@[s@[i].1 as int].list.len() == lb,
    ensures
        out@ == merged(s@, from as int, e as int, k, None, Seq::empty()),
        runs_ok(out@, la as nat, lb as nat),
{
    let mut out: Vec<Run> = Vec::new();
    let mut open: Option<Run> = None;
    let mut i: usize = from;
    assert(out@ =~= Seq::<Run>::empty());
    while i < e
        invariant
            from <= i <= e <= s.len(),
            matches_ok(toks@, k, s@),
            forall|i: int|
                from <= i < e ==> toks@[(#[trigger] s@[i]).0 as int].list.len() == la && toks@[s@[i].1 as int].list.len()
                    == lb,
            merged(s@, from as int, e as int, k, None, Seq::empty()) == merged(s@, i as int, e as int, k, open, out@),
            runs_ok(out@, la as nat, lb as nat),
            open matches Some(r) ==> run_ok(r, la as nat, lb as nat),
        decreases e - i,
    {
        let m: Row = s[i];
        proof {
            assert(match_ok(toks@, k, s@[i as int]));
            assert(toks@[s@[i as int].0 as int].list.len() == la);
        }
        let a: usize = m.3 as usize;
        let b: usize = (m.3 - m.2) as usize;
        match open {
            Some(r) => {
                if m.2 == r.a as i128 - r.b as i128 && a <= r.a + r.len {
                    let len: usize = if a + k >= r.a {
                        a + k - r.a
                    } else {
                        0
                    };
                    open = Some(Run { a: r.a, b: r.b, len });
                } else {
                    out.push(r);
                    open = Some(Run { a, b, len: k });
                }
            },
            None => {
                open = Some(Run { a, b, len: k });
            },
        }
        i = i + 1;
    }
    if let Some(r) = open {
        out.push(r);
    }
    out
}

fn extend_run(x: &Vec<u64>, y: &Vec<u64>, r: Run) -> (out: Run)
    requires
        run_ok(r, x.len() as nat, y.len() as nat),
    ensures
        out == extended(x@, y@, r),
        run_ok(out, x.len() as nat, y.len() as nat),
{
    let mut a: usize = r.a;
    let mut b: usize = r.b;
    let mut len: usize = r.len;
    while a > 0 && b > 0 && x[a - 1] == y[b - 1]
        invariant
            a <= r.a,
            a < x.len(),
            b < y.len(),
            r.a - a == r.b - b,
            len == r.len + (r.a - a),
            run_ok(r, x.len() as nat, y.len() as nat),
            back(x@, y@, r.a as int, r.b as int) == (r.a - a) + back(x@, y@, a as int, b as int),
        decreases a,
    {
        a = a - 1;
        b = b - 1;
        len = len + 1;
    }
    let ghost n = r.a - a;
    let ghost at = len;
    while a + len < x.len() && b + len < y.len() && x[a + len] == y[b + len]
        invariant
            a + len <= x.len(),
            b + len <= y.len(),
            at <= len,
            forth(x@, y@, a + at, b + at) == (len - at) + forth(x@, y@, a + len, b + len),
        decreases x.len() - len,
    {
        len = len + 1;
    }
    Run { a, b, len }
}

fn do_meet(s1: usize, l1: usize, s2: usize, l2: usize) -> (r: bool)
    requires
        s1 + l1 <= usize::MAX,
        s2 + l2 <= usize::MAX,
    ensures
        r == meet(s1, l1, s2, l2),
{
    s1 < s2 + l2 && s2 < s1 + l1
}

fn find_clones(x: &Vec<u64>, y: &Vec<u64>, s: &Vec<Run>, min: usize, same: bool) -> (out: Vec<Run>)
    requires
        runs_ok(s@, x.len() as nat, y.len() as nat),
    ensures
        out@ == clones_in(x@, y@, s@, min, same),
        runs_ok(out@, x.len() as nat, y.len() as nat),
{
    let mut out: Vec<Run> = Vec::new();
    let mut i: usize = 0;
    assert(s@.take(0) =~= Seq::<Run>::empty());
    assert(out@ =~= Seq::<Run>::empty());
    while i < s.len()
        invariant
            i <= s.len(),
            runs_ok(s@, x.len() as nat, y.len() as nat),
            out@ == clones_in(x@, y@, s@.take(i as int), min, same),
            runs_ok(out@, x.len() as nat, y.len() as nat),
        decreases s.len() - i,
    {
        assert(s@.take(i + 1).drop_last() =~= s@.take(i as int));
        assert(run_ok(s@[i as int], x.len() as nat, y.len() as nat));
        let r = extend_run(x, y, s[i]);
        if r.len >= min && !(same && do_meet(r.a, r.len, r.b, r.len)) {
            out.push(r);
        }
        i = i + 1;
    }
    assert(s@.take(s@.len() as int) =~= s@);
    out
}

fn longest_first(s: &Vec<Run>, la: Ghost<nat>, lb: Ghost<nat>) -> (out: Vec<Run>)
    requires
        runs_ok(s@, la@, lb@),
    ensures
        out@ == by_length(s@),
        runs_ok(out@, la@, lb@),
{
    let mut rows: Vec<Row> = Vec::new();
    let mut i: usize = 0;
    let ghost want = length_rows(s@);
    while i < s.len()
        invariant
            i <= s.len(),
            i == rows.len(),
            want == length_rows(s@),
            forall|j: int| 0 <= j < i ==> #[trigger] rows@[j] == want[j],
        decreases s.len() - i,
    {
        rows.push((-(s[i].len as i128), i as i128, 0, 0, 0, 0));
        i = i + 1;
    }
    assert(rows@ =~= want);
    let order = sort_rows(&rows);
    proof {
        sorted_rows_are_sorted(want);
        assert forall|j: int| 0 <= j < order.len() implies 0 <= (#[trigger] order@[j]).1 < s.len() by {
            sorted_rows_hold(want, order@[j]);
            assert(order@.contains(order@[j]));
            let m = choose|m: int| 0 <= m < want.len() && want[m] == order@[j];
            assert(want[m].1 == m);
        }
    }
    let mut out: Vec<Run> = Vec::new();
    let mut i: usize = 0;
    while i < order.len()
        invariant
            i <= order.len(),
            i == out.len(),
            order@ == sorted_rows(length_rows(s@)),
            runs_ok(s@, la@, lb@),
            forall|j: int| 0 <= j < order.len() ==> 0 <= (#[trigger] order@[j]).1 < s.len(),
            forall|j: int| 0 <= j < i ==> #[trigger] out@[j] == s@[order@[j].1 as int],
            runs_ok(out@, la@, lb@),
        decreases order.len() - i,
    {
        let at: usize = order[i].1 as usize;
        assert(0 <= order@[i as int].1 < s.len());
        out.push(s[at]);
        i = i + 1;
    }
    assert(out@ =~= by_length(s@));
    out
}

fn is_seen(kept: &Vec<Run>, r: Run, la: Ghost<nat>, lb: Ghost<nat>) -> (found: bool)
    requires
        la@ <= usize::MAX,
        lb@ <= usize::MAX,
        run_ok(r, la@, lb@),
        runs_ok(kept@, la@, lb@),
    ensures
        found == seen(kept@, r),
{
    let mut j: usize = 0;
    while j < kept.len()
        invariant
            j <= kept.len(),
            la@ <= usize::MAX,
            lb@ <= usize::MAX,
            run_ok(r, la@, lb@),
            runs_ok(kept@, la@, lb@),
            forall|i: int|
                0 <= i < j ==> !(meet(r.a, r.len, (#[trigger] kept@[i]).a, kept@[i].len) && meet(
                    r.b,
                    r.len,
                    kept@[i].b,
                    kept@[i].len,
                )),
        decreases kept.len() - j,
    {
        let k: Run = kept[j];
        assert(run_ok(kept@[j as int], la@, lb@));
        if do_meet(r.a, r.len, k.a, k.len) && do_meet(r.b, r.len, k.b, k.len) {
            assert(kept@[j as int] == k);
            return true;
        }
        j = j + 1;
    }
    false
}

/// The place of the last token of a stretch.
pub fn last_of(n: usize, start: usize, len: usize) -> (r: usize)
    requires
        n > 0,
        start + len <= usize::MAX,
    ensures
        r == last_token(n as nat, start, len),
        r < n,
{
    let end: usize = start + len;
    if 1 <= end && end <= n {
        end - 1
    } else {
        n - 1
    }
}

/// The bytes of a stretch of tokens.
pub fn byte_range(t: &Tokens, start: usize, len: usize) -> (r: (usize, usize))
    requires
        start < t.list.len(),
        start + len <= t.list.len(),
    ensures
        r == bytes_of_run(t@.list, start, len),
{
    let last: usize = last_of(t.list.len(), start, len);
    (t.list[start].start, t.list[last].end)
}

fn is_within_table(t: &Tokens, r: Run, cfg: &Clones, control: &Vec<String>, shares: Shares) -> (found: bool)
    requires
        t.ok(),
        run_ok(r, t.list.len() as nat, t.list.len() as nat),
    ensures
        found == within_table(t@, r, *cfg, control.deep_view(), shares),
{
    match &t.tree {
        Some(tree) => {
            let a = byte_range(t, r.a, r.len);
            let b = byte_range(t, r.b, r.len);
            table_self_match(tree, a, b, cfg, control, shares)
        },
        None => false,
    }
}

/// The clones of two files: the matches from `i` to `e` of the candidates.
pub(crate) fn find_runs(
    toks: &Vec<Tokens>,
    s: &Vec<Row>,
    i: usize,
    e: usize,
    cfg: &Clones,
    control: &Vec<String>,
    shares: Shares,
) -> (out: Vec<Run>)
    requires
        all_ok(toks@),
        i < e <= s.len(),
        matches_ok(views(toks@), cfg.k, s@),
        forall|j: int| i <= j < e ==> (#[trigger] s@[j]).0 == s@[i as int].0 && s@[j].1 == s@[i as int].1,
    ensures
        ({
            let fa = s@[i as int].0;
            let fb = s@[i as int].1;
            let ta = views(toks@)[fa as int];
            let tb = views(toks@)[fb as int];
            &&& out@ == runs_of(s@, i as int, e as int, ta, tb, fa == fb, *cfg, control.deep_view(), shares)
            &&& runs_ok(out@, ta.list.len(), tb.list.len())
        }),
{
    let ghost view = views(toks@);
    assert(match_ok(view, cfg.k, s@[i as int]));
    assert(view.len() == toks.len());
    let fa: usize = s[i].0 as usize;
    let fb: usize = s[i].1 as usize;
    let same = s[i].0 == s[i].1;
    let ta = &toks[fa];
    let tb = &toks[fb];
    assert(toks@[fa as int].ok());
    assert(toks@[fb as int].ok());
    assert(view[fa as int] == ta@);
    assert(view[fb as int] == tb@);
    assert(s@[i as int].0 == fa && s@[i as int].1 == fb);
    assert(view[fa as int].list.len() == ta.list.len() && view[fb as int].list.len() == tb.list.len());
    let m = merge(s, i, e, cfg.k, Ghost(view), ta.list.len(), tb.list.len());
    let c = find_clones(&ta.hashes, &tb.hashes, &m, cfg.min_tokens, same);
    let ghost la = ta.list@.len();
    let ghost lb = tb.list@.len();
    assert(la <= usize::MAX) by {
        assert(ta.list.len() == la);
    }
    assert(lb <= usize::MAX) by {
        assert(tb.list.len() == lb);
    }
    let sorted = longest_first(&c, Ghost(la), Ghost(lb));
    let mut kept: Vec<Run> = Vec::new();
    let mut j: usize = 0;
    assert(kept@ =~= Seq::<Run>::empty());
    let ghost whole = kept_from(sorted@, 0, Seq::empty(), same, ta@, *cfg, control.deep_view(), shares);
    while j < sorted.len()
        invariant
            j <= sorted.len(),
            la <= usize::MAX,
            lb <= usize::MAX,
            la == ta.list@.len(),
            ta.ok(),
            same ==> la == lb,
            runs_ok(sorted@, la, lb),
            runs_ok(kept@, la, lb),
            whole == kept_from(sorted@, j as int, kept@, same, ta@, *cfg, control.deep_view(), shares),
        decreases sorted.len() - j,
    {
        let r: Run = sorted[j];
        assert(run_ok(sorted@[j as int], la, lb));
        let drop = is_seen(&kept, r, Ghost(la), Ghost(lb)) || (same && cfg.drop_same_container_self_match && is_within_table(
            ta,
            r,
            cfg,
            control,
            shares,
        ));
        if !drop {
            kept.push(r);
        }
        j = j + 1;
    }
    kept
}

// ---------- laws ----------

proof fn clones_in_are_clones(x: Seq<u64>, y: Seq<u64>, s: Seq<Run>, min: usize, same: bool)
    ensures
        forall|i: int|
            0 <= i < clones_in(x, y, s, min, same).len() ==> is_clone(#[trigger] clones_in(x, y, s, min, same)[i], min, same),
    decreases s.len(),
{
    if s.len() > 0 {
        clones_in_are_clones(x, y, s.drop_last(), min, same);
        let before = clones_in(x, y, s.drop_last(), min, same);
        let out = clones_in(x, y, s, min, same);
        assert forall|i: int| 0 <= i < out.len() implies is_clone(#[trigger] out[i], min, same) by {
            if i < before.len() {
                assert(out[i] == before[i]);
            }
        }
    }
}

proof fn by_length_keeps(s: Seq<Run>, min: usize, same: bool)
    requires
        forall|i: int| 0 <= i < s.len() ==> is_clone(#[trigger] s[i], min, same),
        s.len() <= usize::MAX,
    ensures
        forall|i: int| 0 <= i < by_length(s).len() ==> is_clone(#[trigger] by_length(s)[i], min, same),
{
    let want = length_rows(s);
    let rows = sorted_rows(want);
    assert forall|i: int| 0 <= i < by_length(s).len() implies is_clone(#[trigger] by_length(s)[i], min, same) by {
        sorted_rows_hold(want, rows[i]);
        assert(rows.contains(rows[i]));
        let m = choose|m: int| 0 <= m < want.len() && want[m] == rows[i];
        assert(want[m].1 == m);
        assert(by_length(s)[i] == s[m]);
    }
}

proof fn kept_stay_apart(
    s: Seq<Run>,
    i: int,
    kept: Seq<Run>,
    same: bool,
    t: TokensView,
    cfg: Clones,
    control: Seq<Chars>,
    shares: Shares,
)
    requires
        0 <= i,
        forall|j: int| 0 <= j < s.len() ==> is_clone(#[trigger] s[j], cfg.min_tokens, same),
        forall|j: int| 0 <= j < kept.len() ==> is_clone(#[trigger] kept[j], cfg.min_tokens, same),
        forall|j: int, l: int|
            0 <= j < l < kept.len() ==> !(meet((#[trigger] kept[l]).a, kept[l].len, (#[trigger] kept[j]).a, kept[j].len)
                && meet(kept[l].b, kept[l].len, kept[j].b, kept[j].len)),
    ensures
        ({
            let out = kept_from(s, i, kept, same, t, cfg, control, shares);
            &&& forall|j: int| 0 <= j < out.len() ==> is_clone(#[trigger] out[j], cfg.min_tokens, same)
            &&& forall|j: int, l: int|
                0 <= j < l < out.len() ==> !(meet((#[trigger] out[l]).a, out[l].len, (#[trigger] out[j]).a, out[j].len)
                    && meet(out[l].b, out[l].len, out[j].b, out[j].len))
        }),
    decreases s.len() - i,
{
    let out = kept_from(s, i, kept, same, t, cfg, control, shares);
    if i < s.len() {
        if seen(kept, s[i]) || (same && cfg.drop_same_container_self_match && within_table(t, s[i], cfg, control, shares)) {
            kept_stay_apart(s, i + 1, kept, same, t, cfg, control, shares);
            assert(out == kept_from(s, i + 1, kept, same, t, cfg, control, shares));
        } else {
            let more = kept.push(s[i]);
            assert forall|j: int, l: int| 0 <= j < l < more.len() implies !(meet(
                (#[trigger] more[l]).a,
                more[l].len,
                (#[trigger] more[j]).a,
                more[j].len,
            ) && meet(more[l].b, more[l].len, more[j].b, more[j].len)) by {
                assert(more[j] == kept[j]);
                if l < kept.len() {
                    assert(more[l] == kept[l]);
                }
            }
            kept_stay_apart(s, i + 1, more, same, t, cfg, control, shares);
            assert(out == kept_from(s, i + 1, more, same, t, cfg, control, shares));
        }
    } else {
        assert(out == kept);
    }
}

/// Every clone of two files has the least tokens; within one file its two stretches do not meet; and
/// no two clones meet on both sides.
pub proof fn clones_are_long_and_apart(
    s: Seq<Row>,
    i: int,
    e: int,
    ta: TokensView,
    tb: TokensView,
    same: bool,
    cfg: Clones,
    control: Seq<Chars>,
    shares: Shares,
)
    requires
        e - i <= usize::MAX,
    ensures
        ({
            let out = runs_of(s, i, e, ta, tb, same, cfg, control, shares);
            &&& forall|j: int| 0 <= j < out.len() ==> is_clone(#[trigger] out[j], cfg.min_tokens, same)
            &&& forall|j: int, l: int|
                0 <= j < l < out.len() ==> !(meet((#[trigger] out[l]).a, out[l].len, (#[trigger] out[j]).a, out[j].len)
                    && meet(out[l].b, out[l].len, out[j].b, out[j].len))
        }),
{
    let m = merged(s, i, e, cfg.k, None, Seq::empty());
    let x = hashes_of(ta.list);
    let y = hashes_of(tb.list);
    let c = clones_in(x, y, m, cfg.min_tokens, same);
    clones_in_are_clones(x, y, m, cfg.min_tokens, same);
    merged_is_short(s, i, e, cfg.k, None, Seq::empty());
    clones_in_is_short(x, y, m, cfg.min_tokens, same);
    by_length_keeps(c, cfg.min_tokens, same);
    kept_stay_apart(by_length(c), 0, Seq::empty(), same, ta, cfg, control, shares);
}

pub(crate) proof fn merged_is_short(s: Seq<Row>, i: int, e: int, k: usize, open: Option<Run>, done: Seq<Run>)
    ensures
        merged(s, i, e, k, open, done).len() <= done.len() + (if open is Some {
            1int
        } else {
            0int
        }) + (if e > i {
            e - i
        } else {
            0
        }),
    decreases e - i,
{
    if i < e {
        match open {
            Some(r) => {
                if goes_on(r, s[i]) {
                    merged_is_short(s, i + 1, e, k, Some(reaching(r, s[i], k)), done);
                } else {
                    merged_is_short(s, i + 1, e, k, Some(begun(s[i], k)), done.push(r));
                }
            },
            None => {
                merged_is_short(s, i + 1, e, k, Some(begun(s[i], k)), done);
            },
        }
    }
}

pub(crate) proof fn clones_in_is_short(x: Seq<u64>, y: Seq<u64>, s: Seq<Run>, min: usize, same: bool)
    ensures
        clones_in(x, y, s, min, same).len() <= s.len(),
    decreases s.len(),
{
    if s.len() > 0 {
        clones_in_is_short(x, y, s.drop_last(), min, same);
    }
}

} // verus!
