//! The clones of a set of files.

use vstd::prelude::*;

use crate::clones::listed::{files_have_one_report, pairs_are_well_listed, well_listed};
use crate::clones::runs::{
    all_ok, bytes_of_run, byte_range, candidates, find_candidates, find_runs, last_of, last_token, match_ok, matches_ok,
    run_ok, runs_of, runs_ok, views, Run,
};
use crate::clones::tables::{
    chain_from, control_kinds, control_of, enclosing_symbol, find_table, resolve, symbol_from, table_from, Shares,
    TableSide, TableView,
};
use crate::clones::tokens::{tokenize, tokens_of, Tokens, TokensView};
use crate::config::{Clones, Tests};
use crate::discover::SourceFile;
use crate::lines::{covered_by, union_lines};
use crate::sorting::{sort_rows, sorted_rows, sorted_rows_are_sorted, sorted_rows_hold, Row};
use crate::names::{distinct, keys_of, put_entry, with_entry, Names};
use crate::text::{before, less, put, same, Chars};

verus! {

/// A stretch of a file.
pub struct Loc {
    pub file: String,
    pub start_line: usize,
    pub end_line: usize,
    /// The nearest named item round the stretch (`as_str`, `CHECKS`), where the grammar names one.
    pub symbol: Option<String>,
}

/// A [`Loc`] by its contents.
pub struct LocView {
    pub file: Chars,
    pub start_line: usize,
    pub end_line: usize,
    pub symbol: Option<Chars>,
}

impl DeepView for Loc {
    type V = LocView;

    open spec fn deep_view(&self) -> LocView {
        LocView {
            file: self.file@,
            start_line: self.start_line,
            end_line: self.end_line,
            symbol: self.symbol.deep_view(),
        }
    }
}

/// What two places share.
#[derive(Debug, Clone, Copy, PartialEq, Eq, Structural)]
pub enum CloneKind {
    /// Code.
    Logic,
    /// Uniform sibling entries on both sides.
    Table,
    /// The heads of functions.
    Signature,
    /// Declarative values.
    Configuration,
}

impl DeepView for CloneKind {
    type V = CloneKind;

    open spec fn deep_view(&self) -> CloneKind {
        *self
    }
}

/// Two places that share a run of tokens.
pub struct ClonePair {
    pub a: Loc,
    pub b: Loc,
    pub tokens: usize,
    /// [`CloneKind::Table`] when both sides lie in a run of uniform sibling entries;
    /// [`CloneKind::Logic`] otherwise.
    pub kind: CloneKind,
    /// The kind of side A's container when the pair is a table.
    pub container_kind: Option<String>,
    /// The consecutive same-kind entries that side A covers when the pair is a table.
    pub entry_count: Option<usize>,
}

/// A [`ClonePair`] by its contents.
pub struct PairView {
    pub a: LocView,
    pub b: LocView,
    pub tokens: usize,
    pub kind: CloneKind,
    pub container_kind: Option<Chars>,
    pub entry_count: Option<usize>,
}

impl DeepView for ClonePair {
    type V = PairView;

    open spec fn deep_view(&self) -> PairView {
        PairView {
            a: self.a.deep_view(),
            b: self.b.deep_view(),
            tokens: self.tokens,
            kind: self.kind,
            container_kind: self.container_kind.deep_view(),
            entry_count: self.entry_count,
        }
    }
}

/// One table that a file's pairs touch: the union of the table pairs' stretches under one symbol.
pub struct TableRef {
    pub symbol: Option<String>,
    pub container_kind: String,
    pub start_line: usize,
    pub end_line: usize,
}

/// A [`TableRef`] by its contents.
pub struct RefView {
    pub symbol: Option<Chars>,
    pub container_kind: Chars,
    pub start_line: usize,
    pub end_line: usize,
}

impl DeepView for TableRef {
    type V = RefView;

    open spec fn deep_view(&self) -> RefView {
        RefView {
            symbol: self.symbol.deep_view(),
            container_kind: self.container_kind@,
            start_line: self.start_line,
            end_line: self.end_line,
        }
    }
}

/// The clones of one file.
pub struct FileClones {
    /// Lines that some stretch covers.
    pub clone_lines: usize,
    /// Lines that some logic pair covers.
    pub logic_clone_lines: usize,
    /// Lines that only table pairs cover.
    pub table_clone_lines: usize,
    /// Lines outside inline test regions.
    pub lines: usize,
    /// The sides of pairs that lie in the file.
    pub pairs: usize,
    pub tables: Vec<TableRef>,
}

/// A [`FileClones`] by its contents.
pub struct FileView {
    pub clone_lines: nat,
    pub logic_clone_lines: nat,
    pub table_clone_lines: nat,
    pub lines: nat,
    pub pairs: nat,
    pub tables: Seq<RefView>,
}

impl DeepView for FileClones {
    type V = FileView;

    open spec fn deep_view(&self) -> FileView {
        FileView {
            clone_lines: self.clone_lines as nat,
            logic_clone_lines: self.logic_clone_lines as nat,
            table_clone_lines: self.table_clone_lines as nat,
            lines: self.lines as nat,
            pairs: self.pairs as nat,
            tables: self.tables.deep_view(),
        }
    }
}

/// The clones of a set of files.
pub struct CloneReport {
    pub pairs: Vec<ClonePair>,
    pub files: Vec<(String, FileClones)>,
}

/// A [`CloneReport`] by its contents.
pub struct CloneReportView {
    pub pairs: Seq<PairView>,
    pub files: Seq<(Chars, FileView)>,
}

impl DeepView for CloneReport {
    type V = CloneReportView;

    open spec fn deep_view(&self) -> CloneReportView {
        CloneReportView { pairs: self.pairs.deep_view(), files: self.files.deep_view() }
    }
}

impl CloneReport {
    /// The clones of a file.
    pub fn file(&self, path: &str) -> (r: Option<&FileClones>)
        ensures
            match r {
                Some(f) => exists|i: int|
                    0 <= i < self.files.len() && (#[trigger] self.files@[i]).0@ == path@ && self.files@[i].1 == *f && forall|j: int|
                        0 <= j < i ==> (#[trigger] self.files@[j]).0@ != path@,
                None => forall|j: int| 0 <= j < self.files.len() ==> (#[trigger] self.files@[j]).0@ != path@,
            },
    {
        let mut i: usize = 0;
        while i < self.files.len()
            invariant
                i <= self.files.len(),
                forall|j: int| 0 <= j < i ==> (#[trigger] self.files@[j]).0@ != path@,
            decreases self.files.len() - i,
        {
            if same(self.files[i].0.as_str(), path) {
                assert(self.files@[i as int].0@ == path@);
                return Some(&self.files[i].1);
            }
            i = i + 1;
        }
        None
    }
}

// ---------- pairs ----------

/// A run with the files it lies in.
#[derive(Clone, Copy)]
pub struct Found {
    pub fa: usize,
    pub fb: usize,
    pub run: Run,
}

/// A run lies in its files.
pub open spec fn found_ok(toks: Seq<TokensView>, f: Found) -> bool {
    f.fa < toks.len() && f.fb < toks.len() && run_ok(f.run, toks[f.fa as int].list.len(), toks[f.fb as int].list.len())
}

/// Every run lies in its files.
pub open spec fn all_found_ok(toks: Seq<TokensView>, s: Seq<Found>) -> bool {
    forall|i: int| 0 <= i < s.len() ==> found_ok(toks, #[trigger] s[i])
}

/// Where the candidates between the files of candidate `i` end.
pub open spec fn same_files_end(s: Seq<Row>, i: int, j: int) -> int
    decreases s.len() - j,
{
    if 0 <= i < j < s.len() && s[j].0 == s[i].0 && s[j].1 == s[i].1 {
        same_files_end(s, i, j + 1)
    } else {
        j
    }
}

/// The clones between the files of candidate `i`.
pub open spec fn found_in(files: Seq<SourceFile>, toks: Seq<TokensView>, s: Seq<Row>, i: int, e: int, cfg: Clones, shares: Shares) -> Seq<Found> {
    let fa = s[i].0;
    let fb = s[i].1;
    let control = control_of(cfg, files[fa as int].lang);
    let runs = runs_of(s, i, e, toks[fa as int], toks[fb as int], fa == fb, cfg, control, shares);
    Seq::new(runs.len(), |j: int| Found { fa: fa as usize, fb: fb as usize, run: runs[j] })
}

/// The clones among the candidates from `i` on.
pub open spec fn found_from(files: Seq<SourceFile>, toks: Seq<TokensView>, s: Seq<Row>, i: int, cfg: Clones, shares: Shares) -> Seq<Found>
    decreases s.len() - i,
{
    if i < 0 || i >= s.len() {
        Seq::empty()
    } else {
        let e = same_files_end(s, i, i + 1);
        found_in(files, toks, s, i, e, cfg, shares) + (if i < e <= s.len() {
            found_from(files, toks, s, e, cfg, shares)
        } else {
            Seq::empty()
        })
    }
}

/// How many of the first `n` files come before a path.
pub open spec fn rank(files: Seq<SourceFile>, path: Chars, n: int) -> nat
    decreases n,
{
    if n <= 0 {
        0
    } else {
        rank(files, path, n - 1) + (if before(files[n - 1].path@, path) {
            1nat
        } else {
            0nat
        })
    }
}

/// The rows by which clones are ordered: the longest first, then by the first side's path and line,
/// then by the second's.
pub open spec fn found_rows(files: Seq<SourceFile>, toks: Seq<TokensView>, s: Seq<Found>) -> Seq<Row> {
    let n = files.len() as int;
    Seq::new(
        s.len(),
        |i: int|
            (
                -s[i].run.len as i128,
                rank(files, files[s[i].fa as int].path@, n) as i128,
                toks[s[i].fa as int].list[s[i].run.a as int].line as i128,
                rank(files, files[s[i].fb as int].path@, n) as i128,
                toks[s[i].fb as int].list[s[i].run.b as int].line as i128,
                i as i128,
            ),
    )
}

/// The clones in the order of their rows.
pub open spec fn found_sorted(files: Seq<SourceFile>, toks: Seq<TokensView>, s: Seq<Found>) -> Seq<Found> {
    let rows = sorted_rows(found_rows(files, toks, s));
    Seq::new(rows.len(), |i: int| s[rows[i].5 as int])
}

/// Where a stretch sits: the item that names it, and the table it lies in, if any.
pub open spec fn side_of(t: TokensView, start: usize, len: usize, cfg: Clones, control: Seq<Chars>, shares: Shares) -> (
    Option<Chars>,
    Option<TableView>,
) {
    match t.tree {
        Some(nodes) => {
            let b = bytes_of_run(t.list, start, len);
            let chain = chain_from(nodes, 0, b.0, b.1, shares.child);
            (
                symbol_from(nodes, chain, chain.len() - 1),
                table_from(nodes, chain, chain.len() - 1, b.0, b.1, cfg, control, shares),
            )
        },
        None => (None, None),
    }
}

/// The lines of a stretch.
pub open spec fn loc_of(path: Chars, t: TokensView, start: usize, len: usize, symbol: Option<Chars>) -> LocView {
    LocView {
        file: path,
        start_line: t.list[start as int].line,
        end_line: t.list[last_token(t.list.len(), start, len)].line,
        symbol,
    }
}

/// The pair of a clone: a table only when both sides are.
pub open spec fn pair_of(files: Seq<SourceFile>, toks: Seq<TokensView>, f: Found, cfg: Clones, shares: Shares) -> PairView {
    let ta = toks[f.fa as int];
    let tb = toks[f.fb as int];
    let a = side_of(ta, f.run.a, f.run.len, cfg, control_of(cfg, files[f.fa as int].lang), shares);
    let b = side_of(tb, f.run.b, f.run.len, cfg, control_of(cfg, files[f.fb as int].lang), shares);
    let table = match (a.1, b.1) {
        (Some(t), Some(u)) => Some(t),
        _ => None,
    };
    PairView {
        a: loc_of(files[f.fa as int].path@, ta, f.run.a, f.run.len, a.0),
        b: loc_of(files[f.fb as int].path@, tb, f.run.b, f.run.len, b.0),
        tokens: f.run.len,
        kind: if table is Some {
            CloneKind::Table
        } else {
            CloneKind::Logic
        },
        container_kind: match table {
            Some(t) => Some(t.container_kind),
            None => None,
        },
        entry_count: match table {
            Some(t) => Some(t.entries),
            None => None,
        },
    }
}

/// The clones of a set of files, in order.
pub open spec fn clones_of(files: Seq<SourceFile>, toks: Seq<TokensView>, cfg: Clones, shares: Shares) -> Seq<Found> {
    found_sorted(files, toks, found_from(files, toks, candidates(toks, cfg), 0, cfg, shares))
}

/// The pairs of a set of files, in order.
pub open spec fn pairs_of(files: Seq<SourceFile>, toks: Seq<TokensView>, cfg: Clones, shares: Shares) -> Seq<PairView> {
    let s = clones_of(files, toks, cfg, shares);
    Seq::new(s.len(), |i: int| pair_of(files, toks, s[i], cfg, shares))
}

fn find_found(files: &Vec<SourceFile>, toks: &Vec<Tokens>, s: &Vec<Row>, cfg: &Clones, shares: Shares) -> (out: Vec<Found>)
    requires
        files.len() == toks.len(),
        all_ok(toks@),
        matches_ok(views(toks@), cfg.k, s@),
    ensures
        out@ == found_from(files@, views(toks@), s@, 0, *cfg, shares),
        all_found_ok(views(toks@), out@),
{
    let ghost view = views(toks@);
    let ghost whole = found_from(files@, view, s@, 0, *cfg, shares);
    let mut out: Vec<Found> = Vec::new();
    let mut i: usize = 0;
    assert(out@ + whole =~= whole);
    while i < s.len()
        invariant
            i <= s.len(),
            files.len() == toks.len(),
            all_ok(toks@),
            view == views(toks@),
            matches_ok(view, cfg.k, s@),
            all_found_ok(view, out@),
            whole == out@ + found_from(files@, view, s@, i as int, *cfg, shares),
        decreases s.len() - i,
    {
        let mut e: usize = i + 1;
        while e < s.len() && s[e].0 == s[i].0 && s[e].1 == s[i].1
            invariant
                i < e <= s.len(),
                same_files_end(s@, i as int, i + 1) == same_files_end(s@, i as int, e as int),
                forall|j: int| i <= j < e ==> (#[trigger] s@[j]).0 == s@[i as int].0 && s@[j].1 == s@[i as int].1,
            decreases s.len() - e,
        {
            e = e + 1;
        }
        assert(match_ok(view, cfg.k, s@[i as int]));
        assert(view.len() == toks.len());
        let fa: usize = s[i].0 as usize;
        let fb: usize = s[i].1 as usize;
        let control = control_kinds(cfg, files[fa].lang);
        let runs = find_runs(toks, s, i, e, cfg, &control, shares);
        let ghost was = out@;
        let ghost here = found_in(files@, view, s@, i as int, e as int, *cfg, shares);
        let mut j: usize = 0;
        assert(was + here.take(0) =~= was);
        while j < runs.len()
            invariant
                j <= runs.len(),
                runs.len() == here.len(),
                fa < view.len(),
                fb < view.len(),
                runs_ok(runs@, view[fa as int].list.len(), view[fb as int].list.len()),
                forall|j: int| 0 <= j < here.len() ==> #[trigger] here[j] == (Found { fa, fb, run: runs@[j] }),
                all_found_ok(view, out@),
                out@ == was + here.take(j as int),
            decreases runs.len() - j,
        {
            assert(run_ok(runs@[j as int], view[fa as int].list.len(), view[fb as int].list.len()));
            out.push(Found { fa, fb, run: runs[j] });
            assert(here.take(j + 1) =~= here.take(j as int).push(here[j as int]));
            assert(was + here.take(j as int).push(here[j as int]) =~= (was + here.take(j as int)).push(here[j as int]));
            j = j + 1;
        }
        proof {
            assert(here.take(here.len() as int) =~= here);
            let rest = found_from(files@, view, s@, e as int, *cfg, shares);
            assert(was + (here + rest) =~= (was + here) + rest);
        }
        i = e;
    }
    assert(out@ + Seq::<Found>::empty() =~= out@);
    out
}

fn ranks(files: &Vec<SourceFile>) -> (out: Vec<usize>)
    ensures
        out.len() == files.len(),
        forall|i: int| 0 <= i < out.len() ==> #[trigger] out@[i] == rank(files@, files@[i].path@, files.len() as int),
{
    let mut out: Vec<usize> = Vec::new();
    let mut i: usize = 0;
    while i < files.len()
        invariant
            i <= files.len(),
            i == out.len(),
            forall|j: int| 0 <= j < i ==> #[trigger] out@[j] == rank(files@, files@[j].path@, files.len() as int),
        decreases files.len() - i,
    {
        let mut r: usize = 0;
        let mut n: usize = 0;
        while n < files.len()
            invariant
                i < files.len(),
                n <= files.len(),
                r <= n,
                r == rank(files@, files@[i as int].path@, n as int),
            decreases files.len() - n,
        {
            if less(files[n].path.as_str(), files[i].path.as_str()) {
                r = r + 1;
            }
            n = n + 1;
        }
        out.push(r);
        i = i + 1;
    }
    out
}

fn sort_found(files: &Vec<SourceFile>, toks: &Vec<Tokens>, s: &Vec<Found>) -> (out: Vec<Found>)
    requires
        files.len() == toks.len(),
        all_found_ok(views(toks@), s@),
    ensures
        out@ == found_sorted(files@, views(toks@), s@),
        all_found_ok(views(toks@), out@),
{
    let ghost view = views(toks@);
    let ghost want = found_rows(files@, view, s@);
    let order = ranks(files);
    let mut rows: Vec<Row> = Vec::new();
    let mut i: usize = 0;
    while i < s.len()
        invariant
            i <= s.len(),
            i == rows.len(),
            files.len() == toks.len(),
            view == views(toks@),
            all_found_ok(view, s@),
            want == found_rows(files@, view, s@),
            order.len() == files.len(),
            forall|i: int| 0 <= i < order.len() ==> #[trigger] order@[i] == rank(files@, files@[i].path@, files.len() as int),
            forall|j: int| 0 <= j < i ==> #[trigger] rows@[j] == want[j],
        decreases s.len() - i,
    {
        let f: Found = s[i];
        assert(found_ok(view, s@[i as int]));
        assert(view[f.fa as int].list == toks@[f.fa as int].list@);
        assert(view[f.fb as int].list == toks@[f.fb as int].list@);
        assert(order@[f.fa as int] == rank(files@, files@[f.fa as int].path@, files.len() as int));
        assert(order@[f.fb as int] == rank(files@, files@[f.fb as int].path@, files.len() as int));
        rows.push(
            (
                -(f.run.len as i128),
                order[f.fa] as i128,
                toks[f.fa].list[f.run.a].line as i128,
                order[f.fb] as i128,
                toks[f.fb].list[f.run.b].line as i128,
                i as i128,
            ),
        );
        i = i + 1;
    }
    assert(rows@ =~= want);
    let sorted = sort_rows(&rows);
    proof {
        sorted_rows_are_sorted(want);
        assert forall|j: int| 0 <= j < sorted.len() implies 0 <= (#[trigger] sorted@[j]).5 < s.len() by {
            sorted_rows_hold(want, sorted@[j]);
            assert(sorted@.contains(sorted@[j]));
            let m = choose|m: int| 0 <= m < want.len() && want[m] == sorted@[j];
            assert(want[m].5 == m);
        }
    }
    let mut out: Vec<Found> = Vec::new();
    let mut i: usize = 0;
    while i < sorted.len()
        invariant
            i <= sorted.len(),
            i == out.len(),
            sorted@ == sorted_rows(want),
            all_found_ok(view, s@),
            forall|j: int| 0 <= j < sorted.len() ==> 0 <= (#[trigger] sorted@[j]).5 < s.len(),
            forall|j: int| 0 <= j < i ==> #[trigger] out@[j] == s@[sorted@[j].5 as int],
            all_found_ok(view, out@),
        decreases sorted.len() - i,
    {
        let at: usize = sorted[i].5 as usize;
        assert(0 <= sorted@[i as int].5 < s.len());
        out.push(s[at]);
        i = i + 1;
    }
    assert(out@ =~= found_sorted(files@, view, s@));
    out
}

/// Where a stretch sits: the item that names it, and the table it lies in, if any.
pub fn locate(t: &Tokens, start: usize, len: usize, cfg: &Clones, control: &Vec<String>, shares: Shares) -> (r: (
    Option<String>,
    Option<TableSide>,
))
    requires
        t.ok(),
        start < t.list.len(),
        start + len <= t.list.len(),
    ensures
        (r.0.deep_view(), r.1.deep_view()) == side_of(t@, start, len, *cfg, control.deep_view(), shares),
{
    match &t.tree {
        Some(tree) => {
            let b = byte_range(t, start, len);
            let chain = resolve(tree, b.0, b.1, shares.child);
            let symbol = enclosing_symbol(tree, &chain);
            let table = find_table(tree, &chain, chain.len(), b.0, b.1, cfg, control, shares);
            (symbol, table)
        },
        None => (None, None),
    }
}

fn loc(path: &str, t: &Tokens, start: usize, len: usize, symbol: Option<String>) -> (r: Loc)
    requires
        start < t.list.len(),
        start + len <= t.list.len(),
    ensures
        r.deep_view() == loc_of(path@, t@, start, len, symbol.deep_view()),
{
    let last: usize = last_of(t.list.len(), start, len);
    Loc { file: path.to_owned(), start_line: t.list[start].line, end_line: t.list[last].line, symbol }
}

fn make_pair(files: &Vec<SourceFile>, toks: &Vec<Tokens>, f: Found, cfg: &Clones, shares: Shares) -> (r: ClonePair)
    requires
        files.len() == toks.len(),
        all_ok(toks@),
        found_ok(views(toks@), f),
    ensures
        r.deep_view() == pair_of(files@, views(toks@), f, *cfg, shares),
{
    let ta = &toks[f.fa];
    let tb = &toks[f.fb];
    assert(views(toks@)[f.fa as int] == ta@);
    assert(views(toks@)[f.fb as int] == tb@);
    assert(toks@[f.fa as int].ok());
    assert(toks@[f.fb as int].ok());
    let (symbol_a, table_a) = locate(ta, f.run.a, f.run.len, cfg, &control_kinds(cfg, files[f.fa].lang), shares);
    let (symbol_b, table_b) = locate(tb, f.run.b, f.run.len, cfg, &control_kinds(cfg, files[f.fb].lang), shares);
    let a = loc(files[f.fa].path.as_str(), ta, f.run.a, f.run.len, symbol_a);
    let b = loc(files[f.fb].path.as_str(), tb, f.run.b, f.run.len, symbol_b);
    match (table_a, table_b) {
        (Some(t), Some(_)) => ClonePair {
            a,
            b,
            tokens: f.run.len,
            kind: CloneKind::Table,
            container_kind: Some(t.container_kind),
            entry_count: Some(t.entries),
        },
        _ => ClonePair { a, b, tokens: f.run.len, kind: CloneKind::Logic, container_kind: None, entry_count: None },
    }
}

// ---------- files ----------

/// The lines of a stretch.
pub open spec fn span_of(l: LocView) -> (usize, usize) {
    (l.start_line, l.end_line)
}

/// A stretch's lines after others, where it lies in a file.
pub open spec fn with_side(s: Seq<(usize, usize)>, l: LocView, path: Chars) -> Seq<(usize, usize)> {
    if l.file == path {
        s.push(span_of(l))
    } else {
        s
    }
}

/// The lines of the first `n` pairs' sides in a file.
pub open spec fn ranges_in(pairs: Seq<PairView>, path: Chars, n: int) -> Seq<(usize, usize)>
    decreases n,
{
    if n <= 0 {
        Seq::empty()
    } else {
        with_side(with_side(ranges_in(pairs, path, n - 1), pairs[n - 1].a, path), pairs[n - 1].b, path)
    }
}

/// The lines of the first `n` pairs' sides in a file, of the logic pairs alone.
pub open spec fn logic_in(pairs: Seq<PairView>, path: Chars, n: int) -> Seq<(usize, usize)>
    decreases n,
{
    if n <= 0 {
        Seq::empty()
    } else {
        let was = logic_in(pairs, path, n - 1);
        if pairs[n - 1].kind == CloneKind::Logic {
            with_side(with_side(was, pairs[n - 1].a, path), pairs[n - 1].b, path)
        } else {
            was
        }
    }
}

/// A reference to the table of a symbol.
pub open spec fn refers(r: RefView, symbol: Option<Chars>, kind: Chars) -> bool {
    r.symbol == symbol && r.container_kind == kind
}

/// The first reference, from `i` on, to the table of a symbol.
pub open spec fn ref_from(refs: Seq<RefView>, symbol: Option<Chars>, kind: Chars, i: int) -> Option<int>
    decreases refs.len() - i,
{
    if i < 0 || i >= refs.len() {
        None
    } else if refers(refs[i], symbol, kind) {
        Some(i)
    } else {
        ref_from(refs, symbol, kind, i + 1)
    }
}

/// References with one more stretch of a table.
pub open spec fn with_ref(refs: Seq<RefView>, l: LocView, path: Chars, kind: Option<Chars>) -> Seq<RefView> {
    match kind {
        Some(k) => if l.file != path {
            refs
        } else {
            match ref_from(refs, l.symbol, k, 0) {
                Some(i) => refs.update(
                    i,
                    RefView {
                        start_line: if l.start_line < refs[i].start_line {
                            l.start_line
                        } else {
                            refs[i].start_line
                        },
                        end_line: if l.end_line > refs[i].end_line {
                            l.end_line
                        } else {
                            refs[i].end_line
                        },
                        ..refs[i]
                    },
                ),
                None => refs.push(
                    RefView { symbol: l.symbol, container_kind: k, start_line: l.start_line, end_line: l.end_line },
                ),
            }
        },
        None => refs,
    }
}

/// The tables that the first `n` pairs touch in a file.
pub open spec fn refs_in(pairs: Seq<PairView>, path: Chars, n: int) -> Seq<RefView>
    decreases n,
{
    if n <= 0 {
        Seq::empty()
    } else {
        let p = pairs[n - 1];
        with_ref(with_ref(refs_in(pairs, path, n - 1), p.a, path, p.container_kind), p.b, path, p.container_kind)
    }
}

/// The rows by which references are ordered.
pub open spec fn ref_rows(refs: Seq<RefView>) -> Seq<Row> {
    Seq::new(refs.len(), |i: int| (refs[i].start_line as i128, refs[i].end_line as i128, i as i128, 0, 0, 0))
}

/// References in the order of their lines.
pub open spec fn refs_sorted(refs: Seq<RefView>) -> Seq<RefView> {
    let rows = sorted_rows(ref_rows(refs));
    Seq::new(rows.len(), |i: int| refs[rows[i].2 as int])
}

/// What stands in a file outside its inline test regions: they emitted no tokens.
pub open spec fn lines_outside(lines: usize, inline: usize) -> nat {
    if lines > inline {
        (lines - inline) as nat
    } else {
        0
    }
}

/// The clones of a file.
pub open spec fn file_of(f: SourceFile, t: TokensView, pairs: Seq<PairView>) -> FileView {
    let n = pairs.len() as int;
    let all = ranges_in(pairs, f.path@, n);
    let logic = logic_in(pairs, f.path@, n);
    FileView {
        clone_lines: covered_by(all).len(),
        logic_clone_lines: covered_by(logic).len(),
        table_clone_lines: (covered_by(all).len() - covered_by(logic).len()) as nat,
        lines: lines_outside(f.lines, t.inline_test_lines),
        pairs: all.len(),
        tables: refs_sorted(refs_in(pairs, f.path@, n)),
    }
}

/// The entry of a file beside those there are: the tables of a path go to its first file.
pub open spec fn entry_of(was: Seq<(Chars, FileView)>, f: SourceFile, t: TokensView, pairs: Seq<PairView>) -> FileView {
    let c = file_of(f, t, pairs);
    if keys_of(was).contains(f.path@) {
        FileView { tables: Seq::empty(), ..c }
    } else {
        c
    }
}

/// The clones of the first `n` files that have some; of files with one path the last one stays.
pub open spec fn files_of(files: Seq<SourceFile>, toks: Seq<TokensView>, pairs: Seq<PairView>, n: int) -> Seq<(Chars, FileView)>
    decreases n,
{
    if n <= 0 {
        Seq::empty()
    } else {
        let was = files_of(files, toks, pairs, n - 1);
        let f = files[n - 1];
        if ranges_in(pairs, f.path@, pairs.len() as int).len() == 0 {
            was
        } else {
            with_entry(was, f.path@, entry_of(was, f, toks[n - 1], pairs))
        }
    }
}

/// The clones of a set of files, by their tokens.
pub open spec fn report_of(files: Seq<SourceFile>, toks: Seq<TokensView>, cfg: Clones, shares: Shares) -> CloneReportView {
    let pairs = pairs_of(files, toks, cfg, shares);
    CloneReportView { pairs, files: files_of(files, toks, pairs, files.len() as int) }
}

proof fn side_keeps(s: Seq<(usize, usize)>, t: Seq<(usize, usize)>, l: LocView, path: Chars)
    requires
        forall|i: int| 0 <= i < s.len() ==> t.contains(#[trigger] s[i]),
    ensures
        forall|i: int| 0 <= i < s.len() ==> with_side(t, l, path).contains(#[trigger] s[i]),
        forall|i: int| 0 <= i < with_side(s, l, path).len() ==> with_side(t, l, path).contains(#[trigger] with_side(s, l, path)[i]),
{
    let u = with_side(t, l, path);
    assert forall|x: (usize, usize)| t.contains(x) implies #[trigger] u.contains(x) by {
        let j = choose|j: int| 0 <= j < t.len() && t[j] == x;
        assert(u[j] == x);
    }
    if l.file == path {
        assert(u[t.len() as int] == span_of(l));
    }
}

proof fn logic_is_among(pairs: Seq<PairView>, path: Chars, n: int)
    ensures
        forall|i: int|
            0 <= i < logic_in(pairs, path, n).len() ==> ranges_in(pairs, path, n).contains(#[trigger] logic_in(pairs, path, n)[i]),
    decreases n,
{
    if n > 0 {
        logic_is_among(pairs, path, n - 1);
        let s = logic_in(pairs, path, n - 1);
        let t = ranges_in(pairs, path, n - 1);
        let p = pairs[n - 1];
        side_keeps(s, t, p.a, path);
        side_keeps(with_side(s, p.a, path), with_side(t, p.a, path), p.b, path);
        side_keeps(s, with_side(t, p.a, path), p.b, path);
    }
}

/// A file's cloned lines are those of logic pairs and those that only table pairs cover.
pub proof fn cloned_lines_add_up(f: SourceFile, t: TokensView, pairs: Seq<PairView>)
    ensures
        ({
            let c = file_of(f, t, pairs);
            c.clone_lines == c.logic_clone_lines + c.table_clone_lines
        }),
{
    let n = pairs.len() as int;
    let all = ranges_in(pairs, f.path@, n);
    let logic = logic_in(pairs, f.path@, n);
    logic_is_among(pairs, f.path@, n);
    ranges_are_finite(all);
    assert forall|l: int| #[trigger] covered_by(logic).contains(l) implies covered_by(all).contains(l) by {
        let i = choose|i: int| 0 <= i < logic.len() && (#[trigger] logic[i]).0 <= l <= logic[i].1;
        assert(all.contains(logic[i]));
        let j = choose|j: int| 0 <= j < all.len() && all[j] == logic[i];
        assert(all[j].0 <= l <= all[j].1);
    }
    vstd::set_lib::lemma_len_subset(covered_by(logic), covered_by(all));
}

proof fn ranges_are_finite(s: Seq<(usize, usize)>)
    ensures
        covered_by(s).finite(),
{
    let all = vstd::set_lib::set_int_range(0, usize::MAX + 1);
    vstd::set_lib::lemma_int_range(0, usize::MAX + 1);
    assert(covered_by(s).subset_of(all));
    vstd::set_lib::lemma_set_subset_finite(all, covered_by(s));
}

fn add_side(out: &mut Vec<(usize, usize)>, l: &Loc, path: &str)
    ensures
        final(out)@ == with_side(old(out)@, l.deep_view(), path@),
{
    if same(l.file.as_str(), path) {
        out.push((l.start_line, l.end_line));
    }
}

fn same_symbol(a: &Option<String>, b: &Option<String>) -> (r: bool)
    ensures
        r == (a.deep_view() == b.deep_view()),
{
    match (a, b) {
        (Some(x), Some(y)) => same(x.as_str(), y.as_str()),
        (None, None) => true,
        _ => false,
    }
}

fn copy_symbol(a: &Option<String>) -> (r: Option<String>)
    ensures
        r.deep_view() == a.deep_view(),
{
    match a {
        Some(x) => Some(x.as_str().to_owned()),
        None => None,
    }
}

fn find_ref(refs: &Vec<TableRef>, symbol: &Option<String>, kind: &str) -> (r: Option<usize>)
    ensures
        (match r {
            Some(i) => Some(i as int),
            None => None,
        }) == ref_from(refs.deep_view(), symbol.deep_view(), kind@, 0),
        r matches Some(i) ==> i < refs.len(),
{
    let ghost view = refs.deep_view();
    let mut i: usize = 0;
    while i < refs.len()
        invariant
            i <= refs.len(),
            view == refs.deep_view(),
            ref_from(view, symbol.deep_view(), kind@, 0) == ref_from(view, symbol.deep_view(), kind@, i as int),
        decreases refs.len() - i,
    {
        assert(view[i as int] == refs@[i as int].deep_view());
        if same_symbol(&refs[i].symbol, symbol) && same(refs[i].container_kind.as_str(), kind) {
            return Some(i);
        }
        i = i + 1;
    }
    None
}

fn add_ref(refs: &mut Vec<TableRef>, l: &Loc, path: &str, kind: &Option<String>)
    ensures
        final(refs).deep_view() == with_ref(old(refs).deep_view(), l.deep_view(), path@, kind.deep_view()),
{
    if let Some(k) = kind {
        if same(l.file.as_str(), path) {
            match find_ref(refs, &l.symbol, k.as_str()) {
                Some(i) => {
                    let ghost was = refs.deep_view();
                    assert(was[i as int] == refs@[i as int].deep_view());
                    let start_line: usize = if l.start_line < refs[i].start_line {
                        l.start_line
                    } else {
                        refs[i].start_line
                    };
                    let end_line: usize = if l.end_line > refs[i].end_line {
                        l.end_line
                    } else {
                        refs[i].end_line
                    };
                    let new = TableRef {
                        symbol: copy_symbol(&refs[i].symbol),
                        container_kind: refs[i].container_kind.as_str().to_owned(),
                        start_line,
                        end_line,
                    };
                    let ghost x = new.deep_view();
                    refs.set(i, new);
                    assert(refs.deep_view() =~= was.update(i as int, x));
                },
                None => {
                    put(
                        refs,
                        TableRef {
                            symbol: copy_symbol(&l.symbol),
                            container_kind: k.as_str().to_owned(),
                            start_line: l.start_line,
                            end_line: l.end_line,
                        },
                    );
                },
            }
        }
    }
}

fn sort_refs(refs: &Vec<TableRef>) -> (out: Vec<TableRef>)
    ensures
        out.deep_view() == refs_sorted(refs.deep_view()),
{
    let ghost view = refs.deep_view();
    let ghost want = ref_rows(view);
    let mut rows: Vec<Row> = Vec::new();
    let mut i: usize = 0;
    while i < refs.len()
        invariant
            i <= refs.len(),
            i == rows.len(),
            view == refs.deep_view(),
            want == ref_rows(view),
            forall|j: int| 0 <= j < i ==> #[trigger] rows@[j] == want[j],
        decreases refs.len() - i,
    {
        assert(view[i as int] == refs@[i as int].deep_view());
        rows.push((refs[i].start_line as i128, refs[i].end_line as i128, i as i128, 0, 0, 0));
        i = i + 1;
    }
    assert(rows@ =~= want);
    let sorted = sort_rows(&rows);
    proof {
        sorted_rows_are_sorted(want);
        assert forall|j: int| 0 <= j < sorted.len() implies 0 <= (#[trigger] sorted@[j]).2 < refs.len() by {
            sorted_rows_hold(want, sorted@[j]);
            assert(sorted@.contains(sorted@[j]));
            let m = choose|m: int| 0 <= m < want.len() && want[m] == sorted@[j];
            assert(want[m].2 == m);
        }
    }
    let mut out: Vec<TableRef> = Vec::new();
    let mut i: usize = 0;
    while i < sorted.len()
        invariant
            i <= sorted.len(),
            i == out.len(),
            view == refs.deep_view(),
            forall|j: int| 0 <= j < sorted.len() ==> 0 <= (#[trigger] sorted@[j]).2 < refs.len(),
            forall|j: int| 0 <= j < i ==> (#[trigger] out@[j]).deep_view() == view[sorted@[j].2 as int],
        decreases sorted.len() - i,
    {
        assert(0 <= sorted@[i as int].2 < refs.len());
        let at: usize = sorted[i].2 as usize;
        let r = &refs[at];
        assert(view[at as int] == r.deep_view());
        out.push(
            TableRef {
                symbol: copy_symbol(&r.symbol),
                container_kind: r.container_kind.as_str().to_owned(),
                start_line: r.start_line,
                end_line: r.end_line,
            },
        );
        i = i + 1;
    }
    assert(out.deep_view() =~= refs_sorted(view));
    out
}

/// The clones of a file, or none where no pair touches it.
pub fn file_clones(f: &SourceFile, t: &Tokens, pairs: &Vec<ClonePair>) -> (r: Option<FileClones>)
    ensures
        match r {
            Some(c) => ranges_in(pairs.deep_view(), f.path@, pairs.len() as int).len() > 0 && c.deep_view() == file_of(
                *f,
                t@,
                pairs.deep_view(),
            ),
            None => ranges_in(pairs.deep_view(), f.path@, pairs.len() as int).len() == 0,
        },
{
    let ghost view = pairs.deep_view();
    let path = f.path.as_str();
    let mut all: Vec<(usize, usize)> = Vec::new();
    let mut logic: Vec<(usize, usize)> = Vec::new();
    let mut refs: Vec<TableRef> = Vec::new();
    assert(refs.deep_view() =~= Seq::<RefView>::empty());
    assert(all@ =~= Seq::<(usize, usize)>::empty());
    assert(logic@ =~= Seq::<(usize, usize)>::empty());
    let mut n: usize = 0;
    while n < pairs.len()
        invariant
            n <= pairs.len(),
            view == pairs.deep_view(),
            path@ == f.path@,
            all@ == ranges_in(view, path@, n as int),
            logic@ == logic_in(view, path@, n as int),
            refs.deep_view() == refs_in(view, path@, n as int),
        decreases pairs.len() - n,
    {
        let p = &pairs[n];
        assert(view[n as int] == p.deep_view());
        add_side(&mut all, &p.a, path);
        add_side(&mut all, &p.b, path);
        if p.kind == CloneKind::Logic {
            add_side(&mut logic, &p.a, path);
            add_side(&mut logic, &p.b, path);
        }
        add_ref(&mut refs, &p.a, path, &p.container_kind);
        add_ref(&mut refs, &p.b, path, &p.container_kind);
        n = n + 1;
    }
    if all.len() == 0 {
        return None;
    }
    let clone_lines: usize = union_lines(&all);
    let logic_clone_lines: usize = union_lines(&logic);
    proof {
        cloned_lines_add_up(*f, t@, view);
    }
    Some(
        FileClones {
            clone_lines,
            logic_clone_lines,
            table_clone_lines: clone_lines - logic_clone_lines,
            lines: if f.lines > t.inline_test_lines {
                f.lines - t.inline_test_lines
            } else {
                0
            },
            pairs: all.len(),
            tables: sort_refs(&refs),
        },
    )
}

/// The clones of a set of files, by their tokens.
pub fn detect_in(files: &Vec<SourceFile>, toks: &Vec<Tokens>, cfg: &Clones, shares: Shares) -> (r: CloneReport)
    requires
        files.len() == toks.len(),
        all_ok(toks@),
    ensures
        r.deep_view() == report_of(files@, views(toks@), *cfg, shares),
        well_listed(r.pairs.deep_view(), *cfg),
        distinct(keys_of(r.files.deep_view())),
{
    let ghost view = views(toks@);
    let s = find_candidates(toks, cfg);
    let f = find_found(files, toks, &s, cfg, shares);
    let found = sort_found(files, toks, &f);
    let ghost want = pairs_of(files@, view, *cfg, shares);
    let mut pairs: Vec<ClonePair> = Vec::new();
    let mut i: usize = 0;
    while i < found.len()
        invariant
            i <= found.len(),
            i == pairs.len(),
            files.len() == toks.len(),
            all_ok(toks@),
            view == views(toks@),
            found@ == clones_of(files@, view, *cfg, shares),
            want == pairs_of(files@, view, *cfg, shares),
            all_found_ok(view, found@),
            forall|j: int| 0 <= j < i ==> (#[trigger] pairs@[j]).deep_view() == want[j],
        decreases found.len() - i,
    {
        assert(found_ok(view, found@[i as int]));
        let p = make_pair(files, toks, found[i], cfg, shares);
        pairs.push(p);
        i = i + 1;
    }
    assert(pairs.deep_view() =~= want);
    proof {
        assert forall|f: int| 0 <= f < view.len() implies (#[trigger] view[f]).list.len() <= usize::MAX by {
            assert(view[f].list == toks@[f].list@);
            assert(toks@[f].list@.len() == toks@[f].list.len());
        }
        pairs_are_well_listed(files@, view, *cfg, shares);
    }
    let mut names = Names::new();
    let mut per_file: Vec<(String, FileClones)> = Vec::new();
    let mut n: usize = 0;
    assert(per_file.deep_view() =~= Seq::<(Chars, FileView)>::empty());
    assert(names@ =~= keys_of(per_file.deep_view()));
    while n < files.len()
        invariant
            n <= files.len(),
            files.len() == toks.len(),
            view == views(toks@),
            pairs.deep_view() == want,
            pairs.len() == want.len(),
            names.ok(),
            names@ == keys_of(per_file.deep_view()),
            per_file.deep_view() == files_of(files@, view, want, n as int),
        decreases files.len() - n,
    {
        assert(view[n as int] == toks@[n as int]@);
        if let Some(c) = file_clones(&files[n], &toks[n], &pairs) {
            let path = files[n].path.as_str();
            let mut c = c;
            if names.find(path).is_some() {
                assert(names@.contains(path@));
                c.tables = Vec::new();
                assert(c.tables.deep_view() =~= Seq::<RefView>::empty());
            }
            put_entry(&mut names, &mut per_file, path, c);
        }
        n = n + 1;
    }
    proof {
        names.are_distinct();
    }
    CloneReport { pairs, files: per_file }
}

/// Tokens that the files have.
pub open spec fn all_tokens_of(toks: Seq<TokensView>, files: Seq<SourceFile>, tests: Tests) -> bool {
    toks.len() == files.len() && forall|i: int| 0 <= i < files.len() ==> tokens_of(#[trigger] toks[i], files[i], tests)
}

/// The tokens of files.
pub fn tokenize_all(files: &Vec<SourceFile>, tests: &Tests) -> (toks: Vec<Tokens>)
    ensures
        toks.len() == files.len(),
        all_ok(toks@),
        all_tokens_of(views(toks@), files@, *tests),
{
    let mut toks: Vec<Tokens> = Vec::new();
    let mut i: usize = 0;
    while i < files.len()
        invariant
            i <= files.len(),
            i == toks.len(),
            all_ok(toks@),
            forall|j: int| 0 <= j < i ==> tokens_of((#[trigger] toks@[j])@, files@[j], *tests),
        decreases files.len() - i,
    {
        let t = tokenize(&files[i], tests);
        toks.push(t);
        i = i + 1;
    }
    assert forall|j: int| 0 <= j < files.len() implies tokens_of(#[trigger] views(toks@)[j], files@[j], *tests) by {
        assert(views(toks@)[j] == toks@[j]@);
    }
    toks
}

/// The clones of a set of files.
pub fn detect(files: &Vec<SourceFile>, cfg: &Clones, tests: &Tests, shares: Shares) -> (r: CloneReport)
    ensures
        exists|toks: Seq<TokensView>|
            all_tokens_of(toks, files@, *tests) && r.deep_view() == #[trigger] report_of(files@, toks, *cfg, shares),
        forall|toks: Seq<TokensView>|
            all_tokens_of(toks, files@, *tests) ==> r.deep_view() == #[trigger] report_of(files@, toks, *cfg, shares),
        well_listed(r.pairs.deep_view(), *cfg),
        distinct(keys_of(r.files.deep_view())),
{
    let toks = tokenize_all(files, tests);
    let r = detect_in(files, &toks, cfg, shares);
    assert(r.deep_view() == report_of(files@, views(toks@), *cfg, shares));
    proof {
        assert forall|other: Seq<TokensView>| all_tokens_of(other, files@, *tests) implies r.deep_view() == #[trigger] report_of(
            files@,
            other,
            *cfg,
            shares,
        ) by {
            files_have_one_report(files@, views(toks@), other, *cfg, *tests, shares);
        }
    }
    r
}

/// A pair is a table only where both of its sides lie in one, and then says which and how many
/// entries.
pub proof fn a_table_has_two_sides(files: Seq<SourceFile>, toks: Seq<TokensView>, f: Found, cfg: Clones, shares: Shares)
    ensures
        ({
            let p = pair_of(files, toks, f, cfg, shares);
            let a = side_of(toks[f.fa as int], f.run.a, f.run.len, cfg, control_of(cfg, files[f.fa as int].lang), shares);
            let b = side_of(toks[f.fb as int], f.run.b, f.run.len, cfg, control_of(cfg, files[f.fb as int].lang), shares);
            &&& (p.kind == CloneKind::Table) <==> (a.1 is Some && b.1 is Some)
            &&& (p.kind == CloneKind::Table) <==> p.container_kind is Some
            &&& (p.kind == CloneKind::Table) <==> p.entry_count is Some
            &&& (p.kind != CloneKind::Table) <==> p.kind == CloneKind::Logic
        }),
{
}

} // verus!
