//! Categories of the index: what is dead, what only tests keep alive, what is exported for nothing.

use vstd::prelude::*;

use crate::config::{Dead, DeadMode};
use crate::dead::index::{defs_of, docs_of, refs_at, refs_beyond, tested_from, FileIndex};
use crate::dead::modes::{family, family_name, family_of, family_text, Family};
use crate::dead::walk::{Def, Visibility};
use crate::discover::{base_of, basename, starts_any, starts_with_any};
use crate::lang::Language;
use crate::names::{capped, no_refs, ref_sum, RefCount};
use crate::order::{dedup_texts, deduped, ordered, sort_texts, sorted_texts, stable_order, Key, KeyView};
use crate::text::{capped_size, decimal, digits, extend, list_has, join, joined, plus, put, same, Chars};
use crate::tree::ints;

verus! {

/// What becomes of a candidate.
#[derive(Debug, Clone, Copy, PartialEq, Eq, Structural)]
pub enum Category {
    /// No reference anywhere, in any context.
    Dead,
    /// No production reference; test references at or above the floor.
    TestOnly,
    /// No production reference outside its file; some inside it.
    Overexported,
    /// Would be dead or test-only, but another definition shares the name.
    Ambiguous,
    Reachable,
}

/// One candidate symbol with its counters.
pub struct SymbolReport {
    pub name: String,
    pub display: String,
    pub kind: &'static str,
    pub visibility: Visibility,
    pub start_line: usize,
    pub end_line: usize,
    pub category: Category,
    pub external_prod_refs: u32,
    pub external_test_refs: u32,
    pub own_prod_refs: u32,
    pub own_test_refs: u32,
    pub doc_mentions: u32,
    pub samename: usize,
    /// Files with a test reference.
    pub test_files: Vec<String>,
}

/// A [`SymbolReport`] by its contents.
pub struct SymbolView {
    pub name: Chars,
    pub display: Chars,
    pub kind: Chars,
    pub visibility: Visibility,
    pub start_line: usize,
    pub end_line: usize,
    pub category: Category,
    pub external_prod_refs: u32,
    pub external_test_refs: u32,
    pub own_prod_refs: u32,
    pub own_test_refs: u32,
    pub doc_mentions: u32,
    pub samename: usize,
    pub test_files: Seq<Chars>,
}

impl DeepView for SymbolReport {
    type V = SymbolView;

    open spec fn deep_view(&self) -> SymbolView {
        SymbolView {
            name: self.name@,
            display: self.display@,
            kind: self.kind@,
            visibility: self.visibility,
            start_line: self.start_line,
            end_line: self.end_line,
            category: self.category,
            external_prod_refs: self.external_prod_refs,
            external_test_refs: self.external_test_refs,
            own_prod_refs: self.own_prod_refs,
            own_test_refs: self.own_test_refs,
            doc_mentions: self.doc_mentions,
            samename: self.samename,
            test_files: self.test_files.deep_view(),
        }
    }
}

/// The class of a kind, as the settings name it.
pub open spec fn class_of(kind: Chars) -> Chars {
    if kind == "fn"@ || kind == "method"@ {
        "fn"@
    } else if kind == "struct"@ || kind == "enum"@ || kind == "union"@ || kind == "trait"@ || kind == "type"@ || kind
        == "class"@ || kind == "interface"@ {
        "type"@
    } else if kind == "const"@ || kind == "static"@ || kind == "var"@ {
        "const"@
    } else if kind == "mod"@ {
        "mod"@
    } else {
        "other"@
    }
}

/// The class of a kind, as the settings name it.
pub fn kind_class(kind: &str) -> (r: &'static str)
    ensures
        r@ == class_of(kind@),
{
    if same(kind, "fn") || same(kind, "method") {
        "fn"
    } else if same(kind, "struct") || same(kind, "enum") || same(kind, "union") || same(kind, "trait") || same(
        kind,
        "type",
    ) || same(kind, "class") || same(kind, "interface") {
        "type"
    } else if same(kind, "const") || same(kind, "static") || same(kind, "var") {
        "const"
    } else if same(kind, "mod") {
        "mod"
    } else {
        "other"
    }
}

/// Whether and why a definition is checked.
#[derive(Debug, Clone, Copy, PartialEq, Eq, Structural)]
pub enum Verdict {
    /// Not exported, or test code.
    Unseen,
    /// Exported, and not checked.
    Exempt,
    /// Exported in a language that is not checked.
    Unchecked,
    Candidate,
}

/// The language family is checked: it is listed, and TypeScript only as an application.
pub open spec fn lang_checked(lang: Language, cfg: Dead) -> bool {
    cfg.symbols.languages.deep_view().contains(family_text(family_of(lang))) && (family_of(lang) != Family::TypeScript
        || cfg.symbols.mode == DeadMode::Application)
}

/// Whether and why a definition is checked.
pub open spec fn verdict_of(d: Def, lang: Language, res: (DeadMode, bool, bool), cfg: Dead) -> Verdict {
    let (mode, is_api, is_entry) = res;
    if d.in_test || d.visibility == Visibility::Private {
        Verdict::Unseen
    } else if d.exempt is Some {
        Verdict::Exempt
    } else if !lang_checked(lang, cfg) {
        Verdict::Unchecked
    } else if mode == DeadMode::Library && d.visibility != Visibility::Restricted {
        Verdict::Exempt
    } else if is_entry || (mode == DeadMode::Library && is_api) {
        Verdict::Exempt
    } else if !cfg.symbols.kinds.deep_view().contains(class_of(d.kind@)) || d.end_line - d.start_line + 1
        < cfg.symbols.min_lines {
        Verdict::Exempt
    } else if cfg.symbols.skip_names.deep_view().contains(d.name@) || starts_any(
        d.name@,
        cfg.symbols.skip_name_prefixes.deep_view(),
    ) {
        Verdict::Exempt
    } else {
        Verdict::Candidate
    }
}

/// Whether and why a definition is checked.
pub fn verdict(d: &Def, lang: Language, res: (DeadMode, bool, bool), cfg: &Dead) -> (r: Verdict)
    requires
        1 <= d.start_line <= d.end_line,
    ensures
        r == verdict_of(*d, lang, res, *cfg),
{
    let (mode, is_api, is_entry) = res;
    if d.in_test || d.visibility == Visibility::Private {
        return Verdict::Unseen;
    }
    if d.exempt.is_some() {
        return Verdict::Exempt;
    }
    let fam = family(lang);
    let lang_on: bool = list_has(&cfg.symbols.languages, family_name(fam)) && (fam != Family::TypeScript || cfg.symbols.mode
        == DeadMode::Application);
    if !lang_on {
        return Verdict::Unchecked;
    }
    if mode == DeadMode::Library && d.visibility != Visibility::Restricted {
        return Verdict::Exempt;
    }
    if is_entry || (mode == DeadMode::Library && is_api) {
        return Verdict::Exempt;
    }
    if !list_has(&cfg.symbols.kinds, kind_class(d.kind)) || d.lines() < cfg.symbols.min_lines {
        return Verdict::Exempt;
    }
    if list_has(&cfg.symbols.skip_names, d.name.as_str()) || starts_with_any(
        d.name.as_str(),
        &cfg.symbols.skip_name_prefixes,
    ) {
        return Verdict::Exempt;
    }
    Verdict::Candidate
}

/// The category of a candidate, by its references outside its file and inside it.
pub open spec fn category_of(ext: RefCount, own: RefCount, samename: nat, cfg: Dead) -> Category {
    let tests = capped(own.test + ext.test);
    if ext.prod > 0 {
        Category::Reachable
    } else if own.prod > 0 {
        Category::Overexported
    } else if tests == 0 {
        if samename == 1 {
            Category::Dead
        } else {
            Category::Ambiguous
        }
    } else if cfg.test_only.enabled && tests >= cfg.test_only.min_external_test_refs {
        if samename == 1 {
            Category::TestOnly
        } else {
            Category::Ambiguous
        }
    } else {
        Category::Reachable
    }
}

/// The category of a candidate, by its references outside its file and inside it.
pub fn categorize(ext: RefCount, own: RefCount, samename: usize, cfg: &Dead) -> (r: Category)
    ensures
        r == category_of(ext, own, samename as nat, *cfg),
{
    let tests: u32 = own.test.saturating_add(ext.test);
    if ext.prod > 0 {
        Category::Reachable
    } else if own.prod > 0 {
        Category::Overexported
    } else if tests == 0 {
        if samename == 1 {
            Category::Dead
        } else {
            Category::Ambiguous
        }
    } else if cfg.test_only.enabled && tests as usize >= cfg.test_only.min_external_test_refs {
        if samename == 1 {
            Category::TestOnly
        } else {
            Category::Ambiguous
        }
    } else {
        Category::Reachable
    }
}

/// The report of one candidate.
pub open spec fn symbol_of(files: Seq<FileIndex>, path: Chars, d: Def, cfg: Dead) -> SymbolView {
    let own = refs_at(files, d.name@, path);
    let ext = refs_beyond(files, d.name@, path);
    let samename = capped_size(defs_of(files, d.name@));
    SymbolView {
        name: d.name@,
        display: d.display@,
        kind: d.kind@,
        visibility: d.visibility,
        start_line: d.start_line,
        end_line: d.end_line,
        category: category_of(ext, own, samename as nat, cfg),
        external_prod_refs: ext.prod,
        external_test_refs: ext.test,
        own_prod_refs: own.prod,
        own_test_refs: own.test,
        doc_mentions: docs_of(files, d.name@).prod,
        samename,
        test_files: sorted_texts(tested_from(files, d.name@)),
    }
}

/// The reports of the candidates among `defs`.
pub open spec fn symbols_of(
    files: Seq<FileIndex>,
    path: Chars,
    lang: Language,
    defs: Seq<Def>,
    res: (DeadMode, bool, bool),
    cfg: Dead,
) -> Seq<SymbolView>
    decreases defs.len(),
{
    if defs.len() == 0 {
        Seq::empty()
    } else {
        let rest = symbols_of(files, path, lang, defs.drop_last(), res, cfg);
        if verdict_of(defs.last(), lang, res, cfg) == Verdict::Candidate {
            rest.push(symbol_of(files, path, defs.last(), cfg))
        } else {
            rest
        }
    }
}

/// How many of `defs` get the verdict `v`.
pub open spec fn verdicts(
    defs: Seq<Def>,
    lang: Language,
    res: (DeadMode, bool, bool),
    cfg: Dead,
    v: Verdict,
) -> nat
    decreases defs.len(),
{
    if defs.len() == 0 {
        0
    } else {
        verdicts(defs.drop_last(), lang, res, cfg, v) + (if verdict_of(defs.last(), lang, res, cfg) == v {
            1nat
        } else {
            0
        })
    }
}

/// How many of `symbols` are of a category.
pub open spec fn count_of(symbols: Seq<SymbolView>, c: Category) -> nat
    decreases symbols.len(),
{
    if symbols.len() == 0 {
        0
    } else {
        count_of(symbols.drop_last(), c) + (if symbols.last().category == c {
            1nat
        } else {
            0
        })
    }
}

/// How many of `symbols` are of a category.
pub fn count(symbols: &Vec<SymbolReport>, c: Category) -> (n: usize)
    ensures
        n == count_of(symbols.deep_view(), c),
        n <= symbols.len(),
{
    let ghost view = symbols.deep_view();
    let mut n: usize = 0;
    let mut k: usize = 0;
    assert(view.take(0) =~= Seq::<SymbolView>::empty());
    while k < symbols.len()
        invariant
            k <= symbols.len(),
            n <= k,
            view == symbols.deep_view(),
            n == count_of(view.take(k as int), c),
        decreases symbols.len() - k,
    {
        assert(view.take(k + 1).drop_last() =~= view.take(k as int));
        if symbols[k].category == c {
            n = n + 1;
        }
        k = k + 1;
    }
    assert(view.take(view.len() as int) =~= view);
    n
}

/// The line ranges of the candidates with no production reference outside the file.
pub open spec fn unused_ranges(symbols: Seq<SymbolView>) -> Seq<(usize, usize)>
    decreases symbols.len(),
{
    if symbols.len() == 0 {
        Seq::empty()
    } else if symbols.last().external_prod_refs == 0 {
        unused_ranges(symbols.drop_last()).push((symbols.last().start_line, symbols.last().end_line))
    } else {
        unused_ranges(symbols.drop_last())
    }
}

pub fn ranges_of(symbols: &Vec<SymbolReport>) -> (out: Vec<(usize, usize)>)
    ensures
        out@ == unused_ranges(symbols.deep_view()),
{
    let ghost view = symbols.deep_view();
    let mut out: Vec<(usize, usize)> = Vec::new();
    let mut k: usize = 0;
    assert(view.take(0) =~= Seq::<SymbolView>::empty());
    while k < symbols.len()
        invariant
            k <= symbols.len(),
            view == symbols.deep_view(),
            out@ == unused_ranges(view.take(k as int)),
        decreases symbols.len() - k,
    {
        assert(view.take(k + 1).drop_last() =~= view.take(k as int));
        if symbols[k].external_prod_refs == 0 {
            out.push((symbols[k].start_line, symbols[k].end_line));
        }
        k = k + 1;
    }
    assert(view.take(view.len() as int) =~= view);
    out
}

// ---------- reasons ----------

/// `7` or `7-9`.
pub open spec fn range_text(s: usize, e: usize) -> Chars {
    if s == e {
        digits(s as nat)
    } else {
        digits(s as nat) + "-"@ + digits(e as nat)
    }
}

/// `7` or `7-9`.
pub fn range(s: usize, e: usize) -> (r: String)
    ensures
        r@ == range_text(s, e),
{
    if s == e {
        decimal(s)
    } else {
        let mut o = decimal(s);
        o.append("-");
        o.append(decimal(e).as_str());
        o
    }
}

/// `1st`, `2nd`, `3rd`, `11th`.
pub open spec fn ordinal_text(n: usize) -> Chars {
    let suffix = if 11 <= n % 100 <= 13 {
        "th"@
    } else if n % 10 == 1 {
        "st"@
    } else if n % 10 == 2 {
        "nd"@
    } else if n % 10 == 3 {
        "rd"@
    } else {
        "th"@
    };
    digits(n as nat) + suffix
}

/// `1st`, `2nd`, `3rd`, `11th`.
pub fn ordinal(n: usize) -> (r: String)
    ensures
        r@ == ordinal_text(n),
{
    let suffix: &'static str = if 11 <= n % 100 && n % 100 <= 13 {
        "th"
    } else if n % 10 == 1 {
        "st"
    } else if n % 10 == 2 {
        "nd"
    } else if n % 10 == 3 {
        "rd"
    } else {
        "th"
    };
    plus(decimal(n), suffix)
}

/// How one test file is named: a file's own tests as such.
pub open spec fn file_text(f: Chars, own: Chars, lang: Language) -> Chars {
    if f == own {
        if lang == Language::Rust {
            "its own #[cfg(test)] tests"@
        } else {
            "its own tests"@
        }
    } else {
        f
    }
}

/// How a list of test files is named.
pub open spec fn files_text(files: Seq<Chars>, own: Chars, lang: Language) -> Chars {
    joined(Seq::new(files.len(), |i: int| file_text(files[i], own, lang)), ", "@)
}

/// `tests/git_real.rs, tests/lock.rs`; the file's own inline tests are named as such.
pub fn name_files(files: &Vec<String>, own: &str, lang: Language) -> (r: String)
    ensures
        r@ == files_text(files.deep_view(), own@, lang),
{
    let ghost all = Seq::new(files.deep_view().len(), |i: int| file_text(files.deep_view()[i], own@, lang));
    let mut out: Vec<String> = Vec::new();
    let mut k: usize = 0;
    assert(out.deep_view() =~= all.take(0));
    while k < files.len()
        invariant
            k <= files.len(),
            all == Seq::new(files.deep_view().len(), |i: int| file_text(files.deep_view()[i], own@, lang)),
            out.deep_view() == all.take(k as int),
        decreases files.len() - k,
    {
        assert(files.deep_view()[k as int] == files@[k as int]@);
        let text: String = if same(files[k].as_str(), own) {
            if lang == Language::Rust {
                "its own #[cfg(test)] tests".to_owned()
            } else {
                "its own tests".to_owned()
            }
        } else {
            files[k].clone()
        };
        put(&mut out, text);
        assert(all.take(k + 1) =~= all.take(k as int).push(all[k as int]));
        k = k + 1;
    }
    assert(all.take(all.len() as int) =~= all);
    join(&out, ", ")
}

/// Where a symbol stands: `(a.rs 6-7)`.
pub open spec fn place_text(path: Chars, s: usize, e: usize) -> Chars {
    "("@ + base_of(path) + " "@ + range_text(s, e) + ")"@
}

fn place(path: &str, s: usize, e: usize) -> (r: String)
    ensures
        r@ == place_text(path@, s, e),
{
    let mut o: String = "(".to_owned();
    o.append(basename(path).as_str());
    o.append(" ");
    o.append(range(s, e).as_str());
    o.append(")");
    o
}

/// What to do about a test-only symbol.
pub open spec fn advice_text(lang: Language, inline_only: bool) -> Chars {
    if lang == Language::Rust {
        if inline_only {
            "move under #[cfg(test)] or delete"@
        } else {
            "move into the test crate or delete"@
        }
    } else {
        "move next to the tests or delete"@
    }
}

/// Every test file is the file itself.
pub open spec fn all_own(files: Seq<Chars>, own: Chars) -> bool {
    forall|k: int| 0 <= k < files.len() ==> #[trigger] files[k] == own
}

fn is_all_own(files: &Vec<String>, own: &str) -> (r: bool)
    ensures
        r == all_own(files.deep_view(), own@),
{
    let mut k: usize = 0;
    while k < files.len()
        invariant
            k <= files.len(),
            forall|j: int| 0 <= j < k ==> #[trigger] files.deep_view()[j] == own@,
        decreases files.len() - k,
    {
        if !same(files[k].as_str(), own) {
            assert(files.deep_view()[k as int] != own@);
            return false;
        }
        k = k + 1;
    }
    true
}

/// The line of one listed symbol.
pub open spec fn symbol_line(s: SymbolView, path: Chars, lang: Language, n_files: nat) -> Chars {
    let head = s.display + " "@ + place_text(path, s.start_line, s.end_line);
    let is_fn = class_of(s.kind) == "fn"@;
    if s.category == Category::Dead {
        head + " is "@ + (if is_fn {
            "called"@
        } else {
            "referenced"@
        }) + " nowhere in "@ + digits(n_files) + " files"@ + (if s.doc_mentions > 0 {
            " ("@ + digits(s.doc_mentions as nat) + " doc mentions)"@
        } else {
            Seq::empty()
        })
    } else if s.category == Category::TestOnly {
        head + " has no production "@ + (if is_fn {
            "caller"@
        } else {
            "use"@
        }) + ": "@ + digits(capped(s.own_test_refs + s.external_test_refs) as nat) + " uses, all in "@ + files_text(
            s.test_files,
            path,
            lang,
        ) + "; "@ + advice_text(lang, all_own(s.test_files, path))
    } else {
        head + " shares its name with "@ + digits(
            if s.samename == 0 {
                0
            } else {
                (s.samename - 1) as nat
            },
        ) + " other definitions; reachability not assessed"@
    }
}

/// The line of one listed symbol.
pub fn symbol_reason(s: &SymbolReport, path: &str, lang: Language, n_files: usize) -> (r: String)
    ensures
        r@ == symbol_line(s.deep_view(), path@, lang, n_files as nat),
{
    let mut o = s.display.clone();
    o.append(" ");
    o.append(place(path, s.start_line, s.end_line).as_str());
    let is_fn: bool = same(kind_class(s.kind), "fn");
    if s.category == Category::Dead {
        o.append(" is ");
        if is_fn {
            o.append("called");
        } else {
            o.append("referenced");
        }
        o.append(" nowhere in ");
        o.append(decimal(n_files).as_str());
        o.append(" files");
        let mut docs = String::new();
        if s.doc_mentions > 0 {
            docs = plus(plus(" (".to_owned(), decimal(s.doc_mentions as usize).as_str()), " doc mentions)");
        }
        o.append(docs.as_str());
    } else if s.category == Category::TestOnly {
        o.append(" has no production ");
        if is_fn {
            o.append("caller");
        } else {
            o.append("use");
        }
        o.append(": ");
        let uses: u32 = s.own_test_refs.saturating_add(s.external_test_refs);
        o.append(decimal(uses as usize).as_str());
        o.append(" uses, all in ");
        o.append(name_files(&s.test_files, path, lang).as_str());
        o.append("; ");
        let inline_only: bool = is_all_own(&s.test_files, path);
        if lang == Language::Rust {
            if inline_only {
                o.append("move under #[cfg(test)] or delete");
            } else {
                o.append("move into the test crate or delete");
            }
        } else {
            o.append("move next to the tests or delete");
        }
    } else {
        o.append(" shares its name with ");
        let others: usize = if s.samename == 0 {
            0
        } else {
            s.samename - 1
        };
        o.append(decimal(others).as_str());
        o.append(" other definitions; reachability not assessed");
    }
    o
}

/// How urgent a category is.
pub open spec fn rank_of(c: Category) -> usize {
    if c == Category::Dead {
        0
    } else if c == Category::TestOnly {
        1
    } else {
        2
    }
}

/// A category that is listed symbol by symbol.
pub open spec fn is_listed(c: Category) -> bool {
    c == Category::Dead || c == Category::TestOnly || c == Category::Ambiguous
}

/// The positions of the listed symbols.
pub open spec fn listed_at(symbols: Seq<SymbolView>) -> Seq<int>
    decreases symbols.len(),
{
    if symbols.len() == 0 {
        Seq::empty()
    } else if is_listed(symbols.last().category) {
        listed_at(symbols.drop_last()).push(symbols.len() - 1)
    } else {
        listed_at(symbols.drop_last())
    }
}

/// The length of a range, from its ends.
pub open spec fn span(s: usize, e: usize) -> usize {
    if s <= e {
        (e - s) as usize
    } else {
        0
    }
}

/// The key of a listed symbol: dead before test-only before ambiguous, longest first.
pub open spec fn symbol_key(s: SymbolView) -> KeyView {
    KeyView {
        a: rank_of(s.category),
        b: (usize::MAX - span(s.start_line, s.end_line)) as usize,
        s: Seq::empty(),
        c: s.start_line,
    }
}

/// The keys of the symbols at `at`.
pub open spec fn symbol_keys(symbols: Seq<SymbolView>, at: Seq<int>) -> Seq<KeyView> {
    Seq::new(at.len(), |i: int| symbol_key(symbols[at[i]]))
}

/// The positions of the listed symbols, most urgent first.
pub open spec fn urgent_at(symbols: Seq<SymbolView>) -> Seq<int> {
    let at = listed_at(symbols);
    let order = ordered(symbol_keys(symbols, at), at.len() as int);
    Seq::new(at.len(), |i: int| at[order[i]])
}

fn key_of(s: &SymbolReport) -> (r: Key)
    ensures
        r.deep_view() == symbol_key(s.deep_view()),
{
    let rank: usize = if s.category == Category::Dead {
        0
    } else if s.category == Category::TestOnly {
        1
    } else {
        2
    };
    let len: usize = if s.start_line <= s.end_line {
        s.end_line - s.start_line
    } else {
        0
    };
    let empty = String::new();
    assert(empty@ =~= Seq::<char>::empty());
    Key { a: rank, b: usize::MAX - len, s: empty, c: s.start_line }
}

/// The positions of the listed symbols, most urgent first.
pub fn urgent(symbols: &Vec<SymbolReport>) -> (out: Vec<usize>)
    ensures
        ints(out@) == urgent_at(symbols.deep_view()),
        forall|k: int| 0 <= k < out.len() ==> #[trigger] out@[k] < symbols.len(),
{
    let ghost view = symbols.deep_view();
    let mut at: Vec<usize> = Vec::new();
    let mut keys: Vec<Key> = Vec::new();
    let mut k: usize = 0;
    assert(view.take(0) =~= Seq::<SymbolView>::empty());
    assert(ints(at@) =~= Seq::<int>::empty());
    assert(keys.deep_view() =~= symbol_keys(view, ints(at@)));
    while k < symbols.len()
        invariant
            k <= symbols.len(),
            view == symbols.deep_view(),
            ints(at@) == listed_at(view.take(k as int)),
            keys.deep_view() == symbol_keys(view, ints(at@)),
            forall|j: int| 0 <= j < at.len() ==> #[trigger] at@[j] < symbols.len(),
        decreases symbols.len() - k,
    {
        assert(view.take(k + 1).drop_last() =~= view.take(k as int));
        let s = &symbols[k];
        assert(view[k as int] == s.deep_view());
        if s.category == Category::Dead || s.category == Category::TestOnly || s.category == Category::Ambiguous {
            let ghost was = ints(at@);
            at.push(k);
            assert(ints(at@) =~= was.push(k as int));
            let ghost kw = keys.deep_view();
            put(&mut keys, key_of(s));
            assert(kw.push(symbol_key(view[k as int])) =~= symbol_keys(view, ints(at@)));
        }
        k = k + 1;
    }
    assert(view.take(view.len() as int) =~= view);
    let order = stable_order(&keys);
    assert(keys.len() == keys.deep_view().len());
    let ghost want = urgent_at(view);
    let mut out: Vec<usize> = Vec::new();
    k = 0;
    assert(ints(out@) =~= want.take(0));
    while k < order.len()
        invariant
            k <= order.len() == at.len(),
            ints(at@) == listed_at(view),
            ints(order@) == ordered(symbol_keys(view, ints(at@)), at.len() as int),
            want == urgent_at(view),
            forall|j: int| 0 <= j < order.len() ==> #[trigger] order@[j] < at.len(),
            forall|j: int| 0 <= j < at.len() ==> #[trigger] at@[j] < symbols.len(),
            ints(out@) == want.take(k as int),
            forall|j: int| 0 <= j < out.len() ==> #[trigger] out@[j] < symbols.len(),
        decreases order.len() - k,
    {
        let ghost was = ints(out@);
        let o: usize = order[k];
        assert(ints(order@)[k as int] == o as int);
        assert(ints(at@)[o as int] == at@[o as int] as int);
        out.push(at[o]);
        assert(ints(out@) =~= was.push(at@[o as int] as int));
        assert(want.take(k + 1) =~= want.take(k as int).push(want[k as int]));
        k = k + 1;
    }
    assert(want.take(want.len() as int) =~= want);
    out
}

/// How far the listing has got.
pub struct Shown {
    pub lines: Seq<Chars>,
    pub shown: nat,
    pub test_only: nat,
    pub more: nat,
}

/// The listing from the `k`th urgent symbol on: capped per file, test-only symbols by a cap of
/// their own, none of them where one line speaks for all.
pub open spec fn listing(
    symbols: Seq<SymbolView>,
    at: Seq<int>,
    k: int,
    st: Shown,
    all_test_only: bool,
    path: Chars,
    lang: Language,
    n_files: nat,
    cfg: Dead,
) -> Shown
    decreases at.len() - k,
{
    if k < 0 || k >= at.len() {
        st
    } else {
        let s = symbols[at[k]];
        let next = if s.category == Category::TestOnly && (all_test_only || st.test_only
            >= cfg.test_only.max_reported_per_file) {
            if all_test_only {
                st
            } else {
                Shown { more: st.more + 1, ..st }
            }
        } else if st.shown >= cfg.symbols.max_reported_per_file {
            Shown { more: st.more + 1, ..st }
        } else {
            Shown {
                lines: st.lines.push(symbol_line(s, path, lang, n_files)),
                shown: st.shown + 1,
                test_only: if s.category == Category::TestOnly {
                    st.test_only + 1
                } else {
                    st.test_only
                },
                more: st.more,
            }
        };
        listing(symbols, at, k + 1, next, all_test_only, path, lang, n_files, cfg)
    }
}

/// The lowest start and the highest end among `symbols`.
pub open spec fn extent(symbols: Seq<SymbolView>) -> (usize, usize)
    decreases symbols.len(),
{
    if symbols.len() == 0 {
        (0, 0)
    } else if symbols.len() == 1 {
        (symbols[0].start_line, symbols[0].end_line)
    } else {
        let (lo, hi) = extent(symbols.drop_last());
        let s = symbols.last();
        (
            if s.start_line < lo {
                s.start_line
            } else {
                lo
            },
            if s.end_line > hi {
                s.end_line
            } else {
                hi
            },
        )
    }
}

/// The test files of all `symbols`, one after the other.
pub open spec fn kept_by(symbols: Seq<SymbolView>) -> Seq<Chars>
    decreases symbols.len(),
{
    if symbols.len() == 0 {
        Seq::empty()
    } else {
        kept_by(symbols.drop_last()) + symbols.last().test_files
    }
}

/// The one line of a file whose exports are all test-only.
pub open spec fn rollup_line(symbols: Seq<SymbolView>, path: Chars, lang: Language) -> Chars {
    let (lo, hi) = extent(symbols);
    "all "@ + digits(symbols.len()) + " exported symbols in "@ + base_of(path) + " are test-only (lines "@ + digits(
        lo as nat,
    ) + "-"@ + digits(hi as nat) + "), kept alive by "@ + files_text(
        deduped(sorted_texts(kept_by(symbols))),
        path,
        lang,
    )
}

/// Every export is test-only, and there are at least two.
pub open spec fn all_tests(symbols: Seq<SymbolView>) -> bool {
    symbols.len() >= 2 && count_of(symbols, Category::TestOnly) == symbols.len()
}

/// The reason lines of a file's symbols.
pub open spec fn symbol_reasons(symbols: Seq<SymbolView>, path: Chars, lang: Language, n_files: nat, cfg: Dead) -> Seq<
    Chars,
> {
    let first = if all_tests(symbols) {
        seq![rollup_line(symbols, path, lang)]
    } else {
        Seq::empty()
    };
    let st = listing(
        symbols,
        urgent_at(symbols),
        0,
        (Shown { lines: first, shown: 0, test_only: 0, more: 0 }),
        all_tests(symbols),
        path,
        lang,
        n_files,
        cfg,
    );
    if st.more > 0 {
        st.lines.push("(+"@ + digits(st.more) + " more dead or test-only symbols in dead_symbols)"@)
    } else {
        st.lines
    }
}

fn rollup(symbols: &Vec<SymbolReport>, path: &str, lang: Language) -> (r: String)
    ensures
        r@ == rollup_line(symbols.deep_view(), path@, lang),
{
    let ghost view = symbols.deep_view();
    let mut lo: usize = 0;
    let mut hi: usize = 0;
    let mut kept: Vec<String> = Vec::new();
    let mut k: usize = 0;
    assert(view.take(0) =~= Seq::<SymbolView>::empty());
    assert(kept.deep_view() =~= Seq::<Chars>::empty());
    while k < symbols.len()
        invariant
            k <= symbols.len(),
            view == symbols.deep_view(),
            (lo, hi) == extent(view.take(k as int)),
            kept.deep_view() == kept_by(view.take(k as int)),
        decreases symbols.len() - k,
    {
        assert(view.take(k + 1).drop_last() =~= view.take(k as int));
        let s = &symbols[k];
        assert(view[k as int] == s.deep_view());
        if k == 0 || s.start_line < lo {
            lo = s.start_line;
        }
        if k == 0 || s.end_line > hi {
            hi = s.end_line;
        }
        extend(&mut kept, &s.test_files);
        k = k + 1;
    }
    assert(view.take(view.len() as int) =~= view);
    let sorted = sort_texts(&kept);
    let names = dedup_texts(&sorted);
    let mut o: String = "all ".to_owned();
    o.append(decimal(symbols.len()).as_str());
    o.append(" exported symbols in ");
    o.append(basename(path).as_str());
    o.append(" are test-only (lines ");
    o.append(decimal(lo).as_str());
    o.append("-");
    o.append(decimal(hi).as_str());
    o.append("), kept alive by ");
    o.append(name_files(&names, path, lang).as_str());
    o
}

/// The reason lines of a file's symbols: dead before test-only, longest first, then ambiguous.
pub fn reasons_of(symbols: &Vec<SymbolReport>, path: &str, lang: Language, n_files: usize, cfg: &Dead) -> (out: Vec<
    String,
>)
    ensures
        out.deep_view() == symbol_reasons(symbols.deep_view(), path@, lang, n_files as nat, *cfg),
{
    let ghost view = symbols.deep_view();
    let mut out: Vec<String> = Vec::new();
    let all_test_only: bool = symbols.len() >= 2 && count(symbols, Category::TestOnly) == symbols.len();
    assert(all_test_only == all_tests(view));
    if all_test_only {
        put(&mut out, rollup(symbols, path, lang));
        assert(out.deep_view() =~= seq![rollup_line(view, path@, lang)]);
    } else {
        assert(out.deep_view() =~= Seq::<Chars>::empty());
    }
    let at = urgent(symbols);
    let ghost first = out.deep_view();
    let ghost start = Shown { lines: first, shown: 0, test_only: 0, more: 0 };
    let mut shown: usize = 0;
    let mut test_only: usize = 0;
    let mut more: usize = 0;
    let mut k: usize = 0;
    while k < at.len()
        invariant
            k <= at.len(),
            shown <= k,
            test_only <= k,
            more <= k,
            view == symbols.deep_view(),
            forall|j: int| 0 <= j < at.len() ==> #[trigger] at@[j] < symbols.len(),
            listing(view, ints(at@), 0, start, all_test_only, path@, lang, n_files as nat, *cfg) == listing(
                view,
                ints(at@),
                k as int,
                (Shown {
                    lines: out.deep_view(),
                    shown: shown as nat,
                    test_only: test_only as nat,
                    more: more as nat,
                }),
                all_test_only,
                path@,
                lang,
                n_files as nat,
                *cfg,
            ),
        decreases at.len() - k,
    {
        let s = &symbols[at[k]];
        assert(view[ints(at@)[k as int]] == s.deep_view());
        if s.category == Category::TestOnly && (all_test_only || test_only >= cfg.test_only.max_reported_per_file) {
            if !all_test_only {
                more = more + 1;
            }
        } else if shown >= cfg.symbols.max_reported_per_file {
            more = more + 1;
        } else {
            shown = shown + 1;
            if s.category == Category::TestOnly {
                test_only = test_only + 1;
            }
            put(&mut out, symbol_reason(s, path, lang, n_files));
        }
        k = k + 1;
    }
    if more > 0 {
        let mut o: String = "(+".to_owned();
        o.append(decimal(more).as_str());
        o.append(" more dead or test-only symbols in dead_symbols)");
        put(&mut out, o);
    }
    out
}

// ---------- laws ----------

/// A dead symbol has no reference anywhere, in any context, and shares its name with no other
/// definition.
pub proof fn dead_has_no_reference(ext: RefCount, own: RefCount, samename: nat, cfg: Dead)
    ensures
        category_of(ext, own, samename, cfg) == Category::Dead <==> ext == no_refs() && own
            == no_refs() && samename == 1,
{
}

/// No file but the one at `path` refers to a name.
pub open spec fn unmentioned_beyond(files: Seq<FileIndex>, name: Chars, path: Chars) -> bool {
    forall|k: int| 0 <= k < files.len() && (#[trigger] files[k]).path@ != path ==> files[k].refs.of(name) == no_refs()
}

proof fn beyond_is_the_sum(files: Seq<FileIndex>, name: Chars, path: Chars)
    ensures
        refs_beyond(files, name, path) == no_refs() <==> unmentioned_beyond(files, name, path),
        refs_beyond(files, name, path).prod > 0 <==> exists|k: int|
            0 <= k < files.len() && (#[trigger] files[k]).path@ != path && files[k].refs.of(name).prod > 0,
    decreases files.len(),
{
    if files.len() > 0 {
        let init = files.drop_last();
        beyond_is_the_sum(init, name, path);
        let n = init.len() as int;
        assert forall|k: int| 0 <= k < n implies init[k] == #[trigger] files[k] by {}
        if unmentioned_beyond(init, name, path) && (files[n].path@ == path || files[n].refs.of(name) == no_refs()) {
            assert forall|k: int| 0 <= k < files.len() && (#[trigger] files[k]).path@ != path implies files[k].refs.of(name)
                == no_refs() by {
                if k < n {
                    assert(init[k] == files[k]);
                }
            }
        }
        if unmentioned_beyond(files, name, path) {
            assert forall|k: int| 0 <= k < init.len() && (#[trigger] init[k]).path@ != path implies init[k].refs.of(name)
                == no_refs() by {
                assert(files[k] == init[k]);
            }
            assert(files[n].path@ != path ==> files[n].refs.of(name) == no_refs());
        }
        if exists|k: int| 0 <= k < init.len() && (#[trigger] init[k]).path@ != path && init[k].refs.of(name).prod > 0 {
            let k = choose|k: int| 0 <= k < init.len() && (#[trigger] init[k]).path@ != path && init[k].refs.of(name).prod > 0;
            assert(files[k].path@ != path && files[k].refs.of(name).prod > 0);
        }
        if exists|k: int| 0 <= k < files.len() && (#[trigger] files[k]).path@ != path && files[k].refs.of(name).prod > 0 {
            let k = choose|k: int| 0 <= k < files.len() && (#[trigger] files[k]).path@ != path && files[k].refs.of(name).prod > 0;
            if k < n {
                assert(init[k].path@ != path && init[k].refs.of(name).prod > 0);
            }
        }
        assert(files.last() == files[n]);
    }
}

/// A symbol is called dead exactly where no file refers to it, its own included, and no other
/// definition has its name.
pub proof fn a_dead_symbol_is_mentioned_nowhere(files: Seq<FileIndex>, path: Chars, d: Def, cfg: Dead)
    ensures
        symbol_of(files, path, d, cfg).category == Category::Dead <==> {
            &&& refs_at(files, d.name@, path) == no_refs()
            &&& unmentioned_beyond(files, d.name@, path)
            &&& defs_of(files, d.name@) == 1
        },
{
    beyond_is_the_sum(files, d.name@, path);
}

/// A symbol that production code of another file uses is never reported.
pub proof fn another_files_use_keeps_a_symbol(files: Seq<FileIndex>, path: Chars, d: Def, cfg: Dead, k: int)
    requires
        0 <= k < files.len(),
        files[k].path@ != path,
        files[k].refs.of(d.name@).prod > 0,
    ensures
        symbol_of(files, path, d, cfg).category == Category::Reachable,
{
    beyond_is_the_sum(files, d.name@, path);
}

/// A symbol that shares its name with another definition is never called dead or test-only.
pub proof fn shared_name_is_never_a_hit(ext: RefCount, own: RefCount, samename: nat, cfg: Dead)
    requires
        samename != 1,
    ensures
        category_of(ext, own, samename, cfg) != Category::Dead,
        category_of(ext, own, samename, cfg) != Category::TestOnly,
{
}

/// More references from production code never make a symbol a worse finding: what was reachable
/// stays so.
pub proof fn more_references_only_reach(ext: RefCount, more: RefCount, own: RefCount, samename: nat, cfg: Dead)
    requires
        category_of(ext, own, samename, cfg) == Category::Reachable,
        cfg.test_only.enabled,
        more.test == 0,
    ensures
        category_of(ref_sum(ext, more), own, samename, cfg) == Category::Reachable,
{
}

/// The categories part the candidates: their counts add up.
pub proof fn categories_add_up(symbols: Seq<SymbolView>)
    ensures
        count_of(symbols, Category::Dead) + count_of(symbols, Category::TestOnly) + count_of(
            symbols,
            Category::Overexported,
        ) + count_of(symbols, Category::Ambiguous) + count_of(symbols, Category::Reachable) == symbols.len(),
    decreases symbols.len(),
{
    if symbols.len() > 0 {
        categories_add_up(symbols.drop_last());
    }
}

/// The verdicts part the definitions: each one is unseen, exempt, unchecked or a candidate, and
/// the candidates are the reported symbols.
pub proof fn verdicts_add_up(
    files: Seq<FileIndex>,
    path: Chars,
    lang: Language,
    defs: Seq<Def>,
    res: (DeadMode, bool, bool),
    cfg: Dead,
)
    ensures
        symbols_of(files, path, lang, defs, res, cfg).len() == verdicts(defs, lang, res, cfg, Verdict::Candidate),
        verdicts(defs, lang, res, cfg, Verdict::Unseen) + verdicts(defs, lang, res, cfg, Verdict::Exempt) + verdicts(
            defs,
            lang,
            res,
            cfg,
            Verdict::Unchecked,
        ) + verdicts(defs, lang, res, cfg, Verdict::Candidate) == defs.len(),
    decreases defs.len(),
{
    if defs.len() > 0 {
        verdicts_add_up(files, path, lang, defs.drop_last(), res, cfg);
    }
}

} // verus!
