//! The report on a whole index.

use vstd::prelude::*;

use crate::config::Dead;
use crate::dead::index::{FileIndex, SymbolIndex};
use crate::dead::modes::{family, family_of, resolution, Family, Modes};
use crate::dead::report::{
    count, count_of, ordinal, ordinal_text, reasons_of, symbol_reasons, symbols_of, unused_ranges, verdict, verdicts,
    Category, SymbolReport, SymbolView, Verdict,
};
use crate::dead::shapes::{push_shape_reasons, shape_reasons, shapes, shapes_of, uses, Shape, ShapeView, Uses};
use crate::dead::walk::Def;
use crate::lang::Language;
use crate::lines::{covered_by, union_lines};
use crate::order::{deduped, ordered, sorted_texts, stable_order, Key, KeyView};
use crate::names::{distinct, keys_of, put_entry, with_entry, Names};
use crate::text::{capped_size, decimal, digits, join, joined, list_has, plus, put, Chars};
use crate::tree::ints;

verus! {

/// What is reported of one file.
pub struct FileDead {
    pub pub_items: usize,
    pub dead_count: usize,
    pub test_only_count: usize,
    pub overexported_count: usize,
    pub ambiguous_count: usize,
    /// Lines spanned by candidates with no production reference outside the file (dead,
    /// test-only, in-file-only, ambiguous), as a union of line ranges.
    pub dead_lines: usize,
    pub symbols: Vec<SymbolReport>,
    pub shapes: Vec<Shape>,
    /// The reason lines the report prints for the file, in order.
    pub reasons: Vec<String>,
}

/// A [`FileDead`] by its contents.
pub struct FileDeadView {
    pub pub_items: nat,
    pub dead_count: nat,
    pub test_only_count: nat,
    pub overexported_count: nat,
    pub ambiguous_count: nat,
    pub dead_lines: nat,
    pub symbols: Seq<SymbolView>,
    pub shapes: Seq<ShapeView>,
    pub reasons: Seq<Chars>,
}

impl DeepView for FileDead {
    type V = FileDeadView;

    open spec fn deep_view(&self) -> FileDeadView {
        FileDeadView {
            pub_items: self.pub_items as nat,
            dead_count: self.dead_count as nat,
            test_only_count: self.test_only_count as nat,
            overexported_count: self.overexported_count as nat,
            ambiguous_count: self.ambiguous_count as nat,
            dead_lines: self.dead_lines as nat,
            symbols: self.symbols.deep_view(),
            shapes: self.shapes.deep_view(),
            reasons: self.reasons.deep_view(),
        }
    }
}

/// How many files are of a family.
pub open spec fn files_of(files: Seq<FileIndex>, fam: Family) -> nat
    decreases files.len(),
{
    if files.len() == 0 {
        0
    } else {
        files_of(files.drop_last(), fam) + (if family_of(files.last().lang) == fam {
            1nat
        } else {
            0
        })
    }
}

fn count_files(files: &Vec<FileIndex>, fam: Family) -> (n: usize)
    ensures
        n == files_of(files@, fam),
{
    let mut n: usize = 0;
    let mut k: usize = 0;
    assert(files@.take(0) =~= Seq::<FileIndex>::empty());
    while k < files.len()
        invariant
            k <= files.len(),
            n <= k,
            n == files_of(files@.take(k as int), fam),
        decreases files.len() - k,
    {
        assert(files@.take(k + 1).drop_last() =~= files@.take(k as int));
        if family(files[k].lang) == fam {
            n = n + 1;
        }
        k = k + 1;
    }
    assert(files@.take(files@.len() as int) =~= files@);
    n
}

/// What the symbols of a file amount to.
pub open spec fn summed(symbols: Seq<SymbolView>, path: Chars, lang: Language, n_files: nat, cfg: Dead) -> FileDeadView {
    FileDeadView {
        pub_items: symbols.len(),
        dead_count: count_of(symbols, Category::Dead),
        test_only_count: count_of(symbols, Category::TestOnly),
        overexported_count: count_of(symbols, Category::Overexported),
        ambiguous_count: count_of(symbols, Category::Ambiguous),
        dead_lines: covered_by(unused_ranges(symbols)).len(),
        symbols,
        shapes: Seq::empty(),
        reasons: symbol_reasons(symbols, path, lang, n_files, cfg),
    }
}

fn sum_up(symbols: Vec<SymbolReport>, path: &str, lang: Language, n_files: usize, cfg: &Dead) -> (r: FileDead)
    ensures
        r.deep_view() == summed(symbols.deep_view(), path@, lang, n_files as nat, *cfg),
{
    let ghost view = symbols.deep_view();
    let ranges = crate::dead::report::ranges_of(&symbols);
    let reasons = reasons_of(&symbols, path, lang, n_files, cfg);
    let none: Vec<Shape> = Vec::new();
    assert(none.deep_view() =~= Seq::<ShapeView>::empty());
    assert(symbols.len() == symbols.deep_view().len());
    FileDead {
        pub_items: symbols.len(),
        dead_count: count(&symbols, Category::Dead),
        test_only_count: count(&symbols, Category::TestOnly),
        overexported_count: count(&symbols, Category::Overexported),
        ambiguous_count: count(&symbols, Category::Ambiguous),
        dead_lines: union_lines(&ranges),
        symbols,
        shapes: none,
        reasons,
    }
}

/// The candidates of one file, and how many exports were not checked and how many of those because
/// of their language.
fn check_defs(index: &SymbolIndex, fi: usize, modes: &Modes, cfg: &Dead) -> (r: (Vec<SymbolReport>, usize, usize))
    requires
        index.ok(),
        fi < index.files.len(),
    ensures
        ({
            let f = index.files@[fi as int];
            let res = resolution(*modes, f.path@, f.lang);
            &&& r.0.deep_view() == symbols_of(index.files@, f.path@, f.lang, f.defs@, res, *cfg)
            &&& r.1 == verdicts(f.defs@, f.lang, res, *cfg, Verdict::Exempt) + verdicts(
                f.defs@,
                f.lang,
                res,
                *cfg,
                Verdict::Unchecked,
            )
            &&& r.2 == verdicts(f.defs@, f.lang, res, *cfg, Verdict::Unchecked)
        }),
{
    let f = &index.files[fi];
    let path = f.path.as_str();
    let res = modes.resolve(path, f.lang);
    let ghost defs = f.defs@;
    let mut out: Vec<SymbolReport> = Vec::new();
    let mut exempt: usize = 0;
    let mut unchecked: usize = 0;
    let mut k: usize = 0;
    assert(defs.take(0) =~= Seq::<Def>::empty());
    assert(out.deep_view() =~= Seq::<SymbolView>::empty());
    while k < f.defs.len()
        invariant
            k <= f.defs.len(),
            index.ok(),
            fi < index.files.len(),
            *f == index.files@[fi as int],
            path@ == f.path@,
            defs == f.defs@,
            exempt <= k,
            unchecked <= exempt,
            out.deep_view() == symbols_of(index.files@, path@, f.lang, defs.take(k as int), res, *cfg),
            exempt == verdicts(defs.take(k as int), f.lang, res, *cfg, Verdict::Exempt) + verdicts(
                defs.take(k as int),
                f.lang,
                res,
                *cfg,
                Verdict::Unchecked,
            ),
            unchecked == verdicts(defs.take(k as int), f.lang, res, *cfg, Verdict::Unchecked),
        decreases f.defs.len() - k,
    {
        assert(defs.take(k + 1).drop_last() =~= defs.take(k as int));
        let d = &f.defs[k];
        assert(index.files@[fi as int].ok());
        assert(1 <= f.defs@[k as int].start_line <= f.defs@[k as int].end_line);
        match verdict(d, f.lang, res, cfg) {
            Verdict::Unseen => {},
            Verdict::Exempt => {
                exempt = exempt + 1;
            },
            Verdict::Unchecked => {
                exempt = exempt + 1;
                unchecked = unchecked + 1;
            },
            Verdict::Candidate => {
                let name = d.name.as_str();
                let own = index.refs_in(name, path);
                let ext = index.external_refs(name, path);
                let samename = index.samename(name);
                let files = index.test_files(name);
                let s = SymbolReport {
                    name: d.name.clone(),
                    display: d.display.clone(),
                    kind: d.kind,
                    visibility: d.visibility,
                    start_line: d.start_line,
                    end_line: d.end_line,
                    category: crate::dead::report::categorize(ext, own, samename, cfg),
                    external_prod_refs: ext.prod,
                    external_test_refs: ext.test,
                    own_prod_refs: own.prod,
                    own_test_refs: own.test,
                    doc_mentions: index.doc_mentions(name),
                    samename,
                    test_files: crate::order::sort_texts(&files),
                };
                put(&mut out, s);
            },
        }
        k = k + 1;
    }
    assert(defs.take(defs.len() as int) =~= defs);
    (out, exempt, unchecked)
}

/// The files that were checked, each by its position in the index, and how many exports were not.
pub struct Checked {
    pub files: Vec<(usize, FileDead)>,
    /// Exported items in production code that were not checked.
    pub exempt: usize,
    pub ts_unchecked: usize,
    pub py_unchecked: usize,
}

/// [`Checked`] by its contents.
pub struct CheckedView {
    pub files: Seq<(usize, FileDeadView)>,
    pub exempt: usize,
    pub ts_unchecked: usize,
    pub py_unchecked: usize,
}

impl View for Checked {
    type V = CheckedView;

    open spec fn view(&self) -> CheckedView {
        CheckedView {
            files: self.files.deep_view(),
            exempt: self.exempt,
            ts_unchecked: self.ts_unchecked,
            py_unchecked: self.py_unchecked,
        }
    }
}

/// What checking the first `n` files gives.
pub open spec fn checked(files: Seq<FileIndex>, modes: Modes, cfg: Dead, n: int) -> CheckedView
    decreases n,
{
    if n <= 0 {
        CheckedView { files: Seq::empty(), exempt: 0, ts_unchecked: 0, py_unchecked: 0 }
    } else {
        let st = checked(files, modes, cfg, n - 1);
        let f = files[n - 1];
        if f.test_context || !cfg.symbols.enabled {
            st
        } else {
            let res = resolution(modes, f.path@, f.lang);
            let fam = family_of(f.lang);
            let unchecked = verdicts(f.defs@, f.lang, res, cfg, Verdict::Unchecked);
            let exempt = verdicts(f.defs@, f.lang, res, cfg, Verdict::Exempt) + unchecked;
            let symbols = symbols_of(files, f.path@, f.lang, f.defs@, res, cfg);
            CheckedView {
                files: if symbols.len() == 0 && !(cfg.shapes.enabled && f.lang == Language::Rust) {
                    st.files
                } else {
                    st.files.push(
                        ((n - 1) as usize, summed(symbols, f.path@, f.lang, files_of(files, family_of(f.lang)), cfg)),
                    )
                },
                exempt: capped_size((st.exempt + exempt) as nat),
                ts_unchecked: if fam == Family::TypeScript {
                    capped_size((st.ts_unchecked + unchecked) as nat)
                } else {
                    st.ts_unchecked
                },
                py_unchecked: if fam == Family::Python {
                    capped_size((st.py_unchecked + unchecked) as nat)
                } else {
                    st.py_unchecked
                },
            }
        }
    }
}

/// Categorise every exported symbol of the index.
pub fn check_symbols(index: &SymbolIndex, modes: &Modes, cfg: &Dead) -> (r: Checked)
    requires
        index.ok(),
    ensures
        r@ == checked(index.files@, *modes, *cfg, index.files.len() as int),
        forall|k: int| 0 <= k < r.files.len() ==> (#[trigger] r.files@[k]).0 < index.files.len(),
{
    let mut files: Vec<(usize, FileDead)> = Vec::new();
    let mut exempt: usize = 0;
    let mut ts_unchecked: usize = 0;
    let mut py_unchecked: usize = 0;
    let mut i: usize = 0;
    assert(files.deep_view() =~= Seq::<(usize, FileDeadView)>::empty());
    while i < index.files.len()
        invariant
            i <= index.files.len(),
            index.ok(),
            forall|k: int| 0 <= k < files.len() ==> (#[trigger] files@[k]).0 < index.files.len(),
            (CheckedView { files: files.deep_view(), exempt, ts_unchecked, py_unchecked }) == checked(
                index.files@,
                *modes,
                *cfg,
                i as int,
            ),
        decreases index.files.len() - i,
    {
        let f = &index.files[i];
        if !(f.test_context || !cfg.symbols.enabled) {
            let fam = family(f.lang);
            let (symbols, skipped, unchecked) = check_defs(index, i, modes, cfg);
            exempt = exempt.saturating_add(skipped);
            if fam == Family::TypeScript {
                ts_unchecked = ts_unchecked.saturating_add(unchecked);
            }
            if fam == Family::Python {
                py_unchecked = py_unchecked.saturating_add(unchecked);
            }
            assert(symbols.len() == symbols.deep_view().len());
            if !(symbols.len() == 0 && !(cfg.shapes.enabled && f.lang == Language::Rust)) {
                let n_files = count_files(&index.files, fam);
                put(&mut files, (i, sum_up(symbols, f.path.as_str(), f.lang, n_files, cfg)));
            }
        }
        i = i + 1;
    }
    Checked { files, exempt, ts_unchecked, py_unchecked }
}

// ---------- the in-file-only line ----------

/// The positions of the symbols that only their own file uses.
pub open spec fn over_at(symbols: Seq<SymbolView>) -> Seq<int>
    decreases symbols.len(),
{
    if symbols.len() == 0 {
        Seq::empty()
    } else if symbols.last().category == Category::Overexported {
        over_at(symbols.drop_last()).push(symbols.len() - 1)
    } else {
        over_at(symbols.drop_last())
    }
}

/// The keys that order symbols by line.
pub open spec fn line_keys(symbols: Seq<SymbolView>, at: Seq<int>) -> Seq<KeyView> {
    Seq::new(at.len(), |i: int| KeyView { a: symbols[at[i]].start_line, b: 0, s: Seq::empty(), c: 0 })
}

/// How a symbol is named in the in-file-only line.
pub open spec fn over_text(s: SymbolView) -> Chars {
    s.name + " ("@ + (if s.start_line == s.end_line {
        "line "@ + digits(s.start_line as nat)
    } else {
        "lines "@ + digits(s.start_line as nat) + "-"@ + digits(s.end_line as nat)
    }) + ")"@
}

/// The symbols that only their own file uses, by line, as they are named.
pub open spec fn over_texts(symbols: Seq<SymbolView>) -> Seq<Chars> {
    let at = over_at(symbols);
    let order = ordered(line_keys(symbols, at), at.len() as int);
    Seq::new(at.len(), |i: int| over_text(symbols[at[order[i]]]))
}

/// The line of a file most of whose exports only it uses.
pub open spec fn in_file_line(fd: FileDeadView, percent: Chars, rank: usize, cfg: Dead) -> Chars {
    let names = over_texts(fd.symbols);
    let cap = cfg.symbols.max_reported_per_file;
    let shown = if names.len() > cap {
        names.take(cap as int)
    } else {
        names
    };
    digits(fd.overexported_count) + " of "@ + digits(fd.pub_items) + " pub items are referenced only inside this file ("@
        + percent + "%, "@ + ordinal_text(rank) + " percentile): "@ + joined(shown, ", "@) + (if names.len() > cap {
        " and "@ + digits((names.len() - cap) as nat) + " more"@
    } else {
        Seq::empty()
    })
}

/// The file may get the in-file-only line: it has enough exports, and is not Python.
pub open spec fn in_file_open(fd: FileDeadView, lang: Language, cfg: Dead) -> bool {
    fd.pub_items >= cfg.symbols.overexported_min_items && family_of(lang) != Family::Python
}

fn name_over(s: &SymbolReport) -> (r: String)
    ensures
        r@ == over_text(s.deep_view()),
{
    let mut o = s.name.clone();
    o.append(" (");
    if s.start_line == s.end_line {
        let t = plus("line ".to_owned(), decimal(s.start_line).as_str());
        o.append(t.as_str());
    } else {
        let mut t: String = "lines ".to_owned();
        t.append(decimal(s.start_line).as_str());
        t.append("-");
        t.append(decimal(s.end_line).as_str());
        o.append(t.as_str());
    }
    o.append(")");
    o
}

fn names_over(symbols: &Vec<SymbolReport>) -> (out: Vec<String>)
    ensures
        out.deep_view() == over_texts(symbols.deep_view()),
{
    let ghost view = symbols.deep_view();
    let mut at: Vec<usize> = Vec::new();
    let mut keys: Vec<Key> = Vec::new();
    let mut k: usize = 0;
    assert(view.take(0) =~= Seq::<SymbolView>::empty());
    assert(ints(at@) =~= Seq::<int>::empty());
    assert(keys.deep_view() =~= line_keys(view, ints(at@)));
    while k < symbols.len()
        invariant
            k <= symbols.len(),
            view == symbols.deep_view(),
            ints(at@) == over_at(view.take(k as int)),
            keys.deep_view() == line_keys(view, ints(at@)),
            forall|j: int| 0 <= j < at.len() ==> #[trigger] at@[j] < symbols.len(),
        decreases symbols.len() - k,
    {
        assert(view.take(k + 1).drop_last() =~= view.take(k as int));
        let s = &symbols[k];
        assert(view[k as int] == s.deep_view());
        if s.category == Category::Overexported {
            let ghost was = ints(at@);
            at.push(k);
            assert(ints(at@) =~= was.push(k as int));
            let ghost kw = keys.deep_view();
            let empty = String::new();
            assert(empty@ =~= Seq::<char>::empty());
            put(&mut keys, Key { a: s.start_line, b: 0, s: empty, c: 0 });
            assert(keys.deep_view() =~= line_keys(view, ints(at@)));
        }
        k = k + 1;
    }
    assert(view.take(view.len() as int) =~= view);
    let order = stable_order(&keys);
    assert(keys.len() == keys.deep_view().len());
    let ghost want = over_texts(view);
    let mut out: Vec<String> = Vec::new();
    k = 0;
    assert(out.deep_view() =~= want.take(0));
    while k < order.len()
        invariant
            k <= order.len() == at.len(),
            view == symbols.deep_view(),
            ints(at@) == over_at(view),
            ints(order@) == ordered(line_keys(view, ints(at@)), at.len() as int),
            want == over_texts(view),
            forall|j: int| 0 <= j < order.len() ==> #[trigger] order@[j] < at.len(),
            forall|j: int| 0 <= j < at.len() ==> #[trigger] at@[j] < symbols.len(),
            out.deep_view() == want.take(k as int),
        decreases order.len() - k,
    {
        let o: usize = order[k];
        assert(ints(order@)[k as int] == o as int);
        assert(ints(at@)[o as int] == at@[o as int] as int);
        put(&mut out, name_over(&symbols[at[o]]));
        assert(want.take(k + 1) =~= want.take(k as int).push(want[k as int]));
        k = k + 1;
    }
    assert(want.take(want.len() as int) =~= want);
    out
}

/// The line of a file most of whose exports only it uses.
pub fn in_file_reason(fd: &FileDead, percent: &str, rank: usize, cfg: &Dead) -> (r: String)
    ensures
        r@ == in_file_line(fd.deep_view(), percent@, rank, *cfg),
{
    let mut names = names_over(&fd.symbols);
    let ghost all = names.deep_view();
    let n: usize = names.len();
    assert(n == all.len());
    let cap: usize = cfg.symbols.max_reported_per_file;
    if n > cap {
        names.truncate(cap);
        assert(names.deep_view() =~= all.take(cap as int));
    }
    let mut o = decimal(fd.overexported_count);
    o.append(" of ");
    o.append(decimal(fd.pub_items).as_str());
    o.append(" pub items are referenced only inside this file (");
    o.append(percent);
    o.append("%, ");
    o.append(ordinal(rank).as_str());
    o.append(" percentile): ");
    o.append(join(&names, ", ").as_str());
    let mut more = String::new();
    if n > cap {
        more = plus(plus(" and ".to_owned(), decimal(n - cap).as_str()), " more");
    }
    assert(n <= cap ==> more@ =~= Seq::<char>::empty());
    o.append(more.as_str());
    o
}

// ---------- the report ----------

/// Totals over all files.
#[derive(Debug, Clone, Copy, PartialEq, Eq, Structural)]
pub struct Totals {
    pub files_indexed: usize,
    pub pub_items: usize,
    pub dead: usize,
    pub test_only: usize,
    pub overexported: usize,
    pub ambiguous: usize,
    /// Exported items in production code that were not checked: plain `pub` / `export` in library
    /// mode, api roots and entrypoints, unchecked languages, under `min_lines`.
    pub exempt_items: usize,
    pub shapes: usize,
}

/// The report.
pub struct DeadReport {
    pub totals: Totals,
    /// `dir: mode (why)` per manifest read.
    pub modes: Vec<String>,
    /// Languages present but not checked, and why.
    pub notes: Vec<String>,
    /// Per Source file with at least one candidate, by path, in the order of the files.
    pub files: Vec<(String, FileDead)>,
}

/// A [`DeadReport`] by its contents.
pub struct ReportView {
    pub totals: Totals,
    pub modes: Seq<Chars>,
    pub notes: Seq<Chars>,
    pub files: Seq<(Chars, FileDeadView)>,
}

impl View for DeadReport {
    type V = ReportView;

    open spec fn view(&self) -> ReportView {
        ReportView {
            totals: self.totals,
            modes: self.modes.deep_view(),
            notes: self.notes.deep_view(),
            files: self.files.deep_view(),
        }
    }
}

/// Shapes are checked.
pub open spec fn shapes_on(cfg: Dead) -> bool {
    cfg.shapes.enabled && cfg.shapes.languages.deep_view().contains("rust"@)
}

/// A checked file with its in-file-only line and its shapes.
#[verifier::opaque]
pub open spec fn finished(
    files: Seq<FileIndex>,
    entry: (usize, FileDeadView),
    in_file: Option<(Chars, usize)>,
    cfg: Dead,
) -> FileDeadView {
    let f = files[entry.0 as int];
    let fd = entry.1;
    let with = match in_file {
        Some((percent, rank)) => if in_file_open(fd, f.lang, cfg) {
            FileDeadView { reasons: fd.reasons.push(in_file_line(fd, percent, rank, cfg)), ..fd }
        } else {
            fd
        },
        None => fd,
    };
    if shapes_on(cfg) && f.lang == Language::Rust {
        let shapes = shapes_of(files, f, cfg.shapes);
        FileDeadView {
            shapes,
            reasons: with.reasons + shape_reasons(shapes, cfg.shapes.max_reported_per_file as nat),
            ..with
        }
    } else {
        with
    }
}

/// The sum of two counts, as a machine holds it.
pub open spec fn plus_capped(a: usize, b: nat) -> usize {
    capped_size((a + b) as nat)
}

/// The totals with one more file.
pub open spec fn totalled(t: Totals, fd: FileDeadView) -> Totals {
    Totals {
        pub_items: plus_capped(t.pub_items, fd.pub_items),
        dead: plus_capped(t.dead, fd.dead_count),
        test_only: plus_capped(t.test_only, fd.test_only_count),
        overexported: plus_capped(t.overexported, fd.overexported_count),
        ambiguous: plus_capped(t.ambiguous, fd.ambiguous_count),
        shapes: plus_capped(t.shapes, fd.shapes.len()),
        ..t
    }
}

impl Totals {
    fn count_file(&mut self, fd: &FileDead)
        ensures
            *final(self) == totalled(*old(self), fd.deep_view()),
    {
        self.pub_items = self.pub_items.saturating_add(fd.pub_items);
        self.dead = self.dead.saturating_add(fd.dead_count);
        self.test_only = self.test_only.saturating_add(fd.test_only_count);
        self.overexported = self.overexported.saturating_add(fd.overexported_count);
        self.ambiguous = self.ambiguous.saturating_add(fd.ambiguous_count);
        assert(fd.shapes.len() == fd.shapes.deep_view().len());
        self.shapes = self.shapes.saturating_add(fd.shapes.len());
    }
}

/// The report after the first `n` checked files; of files with one path the last one stays.
pub open spec fn reported(
    files: Seq<FileIndex>,
    st: CheckedView,
    in_file: Seq<Option<(Chars, usize)>>,
    cfg: Dead,
    n: int,
) -> (Totals, Seq<(Chars, FileDeadView)>)
    decreases n,
{
    if n <= 0 {
        (
            Totals {
                files_indexed: files.len() as usize,
                pub_items: 0,
                dead: 0,
                test_only: 0,
                overexported: 0,
                ambiguous: 0,
                exempt_items: st.exempt,
                shapes: 0,
            },
            Seq::empty(),
        )
    } else {
        let (t, out) = reported(files, st, in_file, cfg, n - 1);
        let entry = st.files[n - 1];
        let fd = finished(
            files,
            entry,
            if n - 1 < in_file.len() {
                in_file[n - 1]
            } else {
                None
            },
            cfg,
        );
        (
            totalled(t, fd),
            if fd.pub_items > 0 || fd.shapes.len() > 0 {
                with_entry(out, files[entry.0 as int].path@, fd)
            } else {
                out
            },
        )
    }
}

/// What is said of languages that were not checked.
pub open spec fn notes_of(st: CheckedView) -> Seq<Chars> {
    let ts = if st.ts_unchecked > 0 {
        seq![
            "typescript: "@ + digits(st.ts_unchecked as nat)
                + " exported symbols not checked; run knip, or set [dead.symbols] mode = \"application\" and add \"typescript\" to languages"@,
        ]
    } else {
        Seq::empty()
    };
    if st.py_unchecked > 0 {
        ts.push(
            "python: "@ + digits(st.py_unchecked as nat)
                + " public definitions not checked; add \"python\" to [dead.symbols] languages"@,
        )
    } else {
        ts
    }
}

/// The whole report.
pub open spec fn report_of(
    files: Seq<FileIndex>,
    modes: Modes,
    st: CheckedView,
    in_file: Seq<Option<(Chars, usize)>>,
    cfg: Dead,
) -> ReportView {
    let (totals, out) = reported(files, st, in_file, cfg, st.files.len() as int);
    ReportView {
        totals,
        modes: deduped(sorted_texts(crate::dead::modes::mode_rows(modes.entries@))),
        notes: notes_of(st),
        files: out,
    }
}

fn finish(
    index: &SymbolIndex,
    uses: &Uses,
    fi: usize,
    fd: FileDead,
    in_file: Option<&(String, usize)>,
    cfg: &Dead,
) -> (r: FileDead)
    requires
        index.ok(),
        uses.of(index.files@),
        fi < index.files.len(),
    ensures
        r.deep_view() == finished(index.files@, (fi, fd.deep_view()), in_file.deep_view(), *cfg),
{
    reveal(finished);
    let mut fd = fd;
    let f = &index.files[fi];
    match in_file {
        Some(p) => {
            if fd.pub_items >= cfg.symbols.overexported_min_items && family(f.lang) != Family::Python {
                let line = in_file_reason(&fd, p.0.as_str(), p.1, cfg);
                put(&mut fd.reasons, line);
            }
        },
        None => {},
    }
    if cfg.shapes.enabled && list_has(&cfg.shapes.languages, "rust") && f.lang == Language::Rust {
        let found = shapes(index, uses, f, &cfg.shapes);
        push_shape_reasons(&found, cfg.shapes.max_reported_per_file, &mut fd.reasons);
        fd.shapes = found;
    }
    fd
}

/// Put the report together from the checked symbols. `in_file` says, for each checked file, with
/// what percentage and at which percentile it gets the in-file-only line, if it does.
pub fn analyze(index: &SymbolIndex, modes: &Modes, st: Checked, in_file: &Vec<Option<(String, usize)>>, cfg: &Dead) -> (r:
    DeadReport)
    requires
        index.ok(),
        forall|k: int| 0 <= k < st.files.len() ==> (#[trigger] st.files@[k]).0 < index.files.len(),
    ensures
        r@ == report_of(index.files@, *modes, st@, in_file.deep_view(), *cfg),
        distinct(keys_of(r@.files)),
{
    let ghost view = st@;
    let ghost lines = in_file.deep_view();
    let mut totals = Totals {
        files_indexed: index.files.len(),
        pub_items: 0,
        dead: 0,
        test_only: 0,
        overexported: 0,
        ambiguous: 0,
        exempt_items: st.exempt,
        shapes: 0,
    };
    let mut notes: Vec<String> = Vec::new();
    assert(notes.deep_view() =~= Seq::<Chars>::empty());
    if st.ts_unchecked > 0 {
        let mut o: String = "typescript: ".to_owned();
        o.append(decimal(st.ts_unchecked).as_str());
        o.append(
            " exported symbols not checked; run knip, or set [dead.symbols] mode = \"application\" and add \"typescript\" to languages",
        );
        let ghost v = o@;
        put(&mut notes, o);
        assert(notes.deep_view() =~= seq![v]);
    }
    if st.py_unchecked > 0 {
        let mut o: String = "python: ".to_owned();
        o.append(decimal(st.py_unchecked).as_str());
        o.append(" public definitions not checked; add \"python\" to [dead.symbols] languages");
        put(&mut notes, o);
    }
    let used = uses(&index.files);
    let mut out: Vec<(String, FileDead)> = Vec::new();
    let mut names = Names::new();
    let mut todo: Vec<(usize, FileDead)> = st.files;
    let ghost all = todo@;
    let total: usize = todo.len();
    let mut n: usize = 0;
    assert(out.deep_view() =~= Seq::<(Chars, FileDeadView)>::empty());
    assert(names@ =~= keys_of(out.deep_view()));
    assert(todo@ =~= all.skip(0));
    while todo.len() > 0
        invariant
            index.ok(),
            used.of(index.files@),
            names.ok(),
            names@ == keys_of(out.deep_view()),
            n <= all.len() == total,
            todo@ == all.skip(n as int),
            lines == in_file.deep_view(),
            view.files.len() == all.len(),
            forall|k: int| 0 <= k < all.len() ==> view.files[k] == (#[trigger] all[k]).deep_view(),
            forall|k: int| 0 <= k < all.len() ==> (#[trigger] all[k]).0 < index.files.len(),
            (totals, out.deep_view()) == reported(index.files@, view, lines, *cfg, n as int),
        decreases todo.len(),
    {
        let (fi, fd) = todo.remove(0);
        assert((fi, fd) == all[n as int]);
        assert(all.skip(n as int).remove(0) =~= all.skip(n + 1));
        let line: Option<&(String, usize)> = if n < in_file.len() {
            in_file[n].as_ref()
        } else {
            None
        };
        assert(line.deep_view() == (if n < lines.len() {
            lines[n as int]
        } else {
            None
        }));
        let fd = finish(index, &used, fi, fd, line, cfg);
        totals.count_file(&fd);
        assert(fd.shapes.len() == fd.shapes.deep_view().len());
        if fd.pub_items > 0 || fd.shapes.len() > 0 {
            put_entry(&mut names, &mut out, index.files[fi].path.as_str(), fd);
        }
        n = n + 1;
    }
    proof {
        names.are_distinct();
    }
    DeadReport { totals, modes: modes.summary(), notes, files: out }
}

} // verus!
