//! File classification.
//!
//! Every later pass reads the files classified here. Classification matters because raw metrics
//! on the wrong kind of file produce confident nonsense: a 2,000-line map fixture is not a
//! refactoring candidate, and generated API types churn without anyone touching them by hand.

use vstd::prelude::*;

use crate::config::Discover;
use crate::lang::Language;
use crate::text::{
    around_last, chars, contains, ends, ends_with, holds, lines, lines_of, list_has, pieces, rsplit_once, small, split, starts,
    starts_with, to_small, trim_start, trimmed_start, Chars,
};

verus! {

/// What a file is.
#[derive(Debug, Clone, Copy, PartialEq, Eq, Hash, Structural)]
pub enum FileKind {
    /// Hand-written logic. The only kind that is ranked.
    Source,
    /// Test code. Tracked for test-proximity, never ranked.
    Test,
    /// Data-shaped code: fixtures, big literal tables, map definitions.
    Data,
    /// Machine-written: codegen output, migrations, `.d.ts`, minified bundles.
    Generated,
    /// Third-party code checked into the tree.
    Vendored,
}

/// One file of the repository.
pub struct SourceFile {
    /// Path relative to the scanned root, always with `/` separators.
    pub path: String,
    pub lang: Language,
    pub kind: FileKind,
    pub lines: usize,
    pub bytes: usize,
    pub content: String,
}

/// The directory of a path: what stands before its last `/`.
pub open spec fn dir_of(path: Chars) -> Chars {
    match around_last(path, '/') {
        Some((dir, _)) => dir,
        None => Seq::empty(),
    }
}

/// The last component of a path.
pub open spec fn base_of(path: Chars) -> Chars {
    match around_last(path, '/') {
        Some((_, base)) => base,
        None => path,
    }
}

/// The directory of `path`.
pub fn dir(path: &str) -> (r: String)
    ensures
        r@ == dir_of(path@),
{
    match rsplit_once(path, '/') {
        Some((dir, _)) => dir,
        None => String::new(),
    }
}

/// The last component of `path`.
pub fn basename(path: &str) -> (r: String)
    ensures
        r@ == base_of(path@),
{
    match rsplit_once(path, '/') {
        Some((_, base)) => base,
        None => path.to_owned(),
    }
}

impl SourceFile {
    /// The directory the file stands in.
    pub fn module_dir(&self) -> (r: String)
        ensures
            r@ == dir_of(self.path@),
    {
        dir(self.path.as_str())
    }
}

/// `s` with its ASCII capitals made small.
pub open spec fn ascii_small(s: Chars) -> Chars {
    Seq::new(s.len(), |i: int| small(s[i]))
}

/// `s.to_ascii_lowercase()`.
pub fn to_ascii_small(s: &str) -> (out: String)
    ensures
        out@ == ascii_small(s@),
{
    let v = chars(s);
    let mut out = String::new();
    let mut i: usize = 0;
    while i < v.len()
        invariant
            i <= v.len(),
            v@ == s@,
            out@ == ascii_small(s@).take(i as int),
        decreases v.len() - i,
    {
        out.push(to_small(v[i]));
        assert(ascii_small(s@).take(i + 1) =~= ascii_small(s@).take(i as int).push(small(s@[i as int])));
        i = i + 1;
    }
    assert(ascii_small(s@).take(v@.len() as int) =~= ascii_small(s@));
    out
}

/// Some directory of the path is one of `names`.
pub open spec fn under(parts: Seq<Chars>, names: Seq<Chars>) -> bool {
    exists|k: int| 0 <= k < parts.len() - 1 && names.contains(#[trigger] parts[k])
}

fn in_dir(parts: &Vec<String>, names: &Vec<String>) -> (r: bool)
    requires
        parts.len() > 0,
    ensures
        r == under(parts.deep_view(), names.deep_view()),
{
    let mut k: usize = 0;
    while k < parts.len() - 1
        invariant
            k <= parts.len() - 1,
            forall|j: int| 0 <= j < k ==> !names.deep_view().contains(#[trigger] parts.deep_view()[j]),
        decreases parts.len() - k,
    {
        if list_has(names, parts[k].as_str()) {
            assert(names.deep_view().contains(parts.deep_view()[k as int]));
            return true;
        }
        k = k + 1;
    }
    false
}

/// `s` begins with one of `list`.
pub open spec fn starts_any(s: Chars, list: Seq<Chars>) -> bool {
    exists|k: int| 0 <= k < list.len() && starts(s, #[trigger] list[k])
}

/// `s` ends with one of `list`.
pub open spec fn ends_any(s: Chars, list: Seq<Chars>) -> bool {
    exists|k: int| 0 <= k < list.len() && ends(s, #[trigger] list[k])
}

/// One of `list` stands in `s`.
pub open spec fn holds_any(s: Chars, list: Seq<Chars>) -> bool {
    exists|k: int| 0 <= k < list.len() && holds(s, #[trigger] list[k])
}

/// Does `s` begin with one of `list`?
pub fn starts_with_any(s: &str, list: &Vec<String>) -> (r: bool)
    ensures
        r == starts_any(s@, list.deep_view()),
{
    let mut k: usize = 0;
    while k < list.len()
        invariant
            k <= list.len(),
            forall|j: int| 0 <= j < k ==> !starts(s@, #[trigger] list.deep_view()[j]),
        decreases list.len() - k,
    {
        if starts_with(s, list[k].as_str()) {
            assert(starts(s@, list.deep_view()[k as int]));
            return true;
        }
        k = k + 1;
    }
    false
}

/// Does `s` end with one of `list`?
pub fn ends_with_any(s: &str, list: &Vec<String>) -> (r: bool)
    ensures
        r == ends_any(s@, list.deep_view()),
{
    let mut k: usize = 0;
    while k < list.len()
        invariant
            k <= list.len(),
            forall|j: int| 0 <= j < k ==> !ends(s@, #[trigger] list.deep_view()[j]),
        decreases list.len() - k,
    {
        if ends_with(s, list[k].as_str()) {
            assert(ends(s@, list.deep_view()[k as int]));
            return true;
        }
        k = k + 1;
    }
    false
}

/// Does one of `list` stand in `s`?
pub fn contains_any(s: &str, list: &Vec<String>) -> (r: bool)
    ensures
        r == holds_any(s@, list.deep_view()),
{
    let mut k: usize = 0;
    while k < list.len()
        invariant
            k <= list.len(),
            forall|j: int| 0 <= j < k ==> !holds(s@, #[trigger] list.deep_view()[j]),
        decreases list.len() - k,
    {
        if contains(s, list[k].as_str()) {
            assert(holds(s@, list.deep_view()[k as int]));
            return true;
        }
        k = k + 1;
    }
    false
}

/// One of the first lines, its ASCII capitals made small, holds a marker.
pub open spec fn generated(content: Chars, cfg: Discover) -> bool {
    exists|k: int|
        0 <= k < lines_of(content).len() && k < cfg.generated_marker_lines && holds_any(
            ascii_small(#[trigger] lines_of(content)[k]),
            cfg.generated_markers.deep_view(),
        )
}

/// Does the top of the file say that a machine wrote it?
pub fn looks_generated(content: &str, cfg: &Discover) -> (r: bool)
    ensures
        r == generated(content@, *cfg),
{
    let all = lines(content);
    let mut k: usize = 0;
    while k < all.len() && k < cfg.generated_marker_lines
        invariant
            k <= all.len(),
            k <= cfg.generated_marker_lines,
            all.deep_view() == lines_of(content@),
            forall|j: int|
                0 <= j < k ==> !holds_any(
                    ascii_small(#[trigger] lines_of(content@)[j]),
                    cfg.generated_markers.deep_view(),
                ),
        decreases all.len() - k,
    {
        assert(all.deep_view()[k as int] == all@[k as int]@);
        let l = to_ascii_small(all[k].as_str());
        if contains_any(l.as_str(), &cfg.generated_markers) {
            assert(holds_any(ascii_small(lines_of(content@)[k as int]), cfg.generated_markers.deep_view()));
            return true;
        }
        k = k + 1;
    }
    false
}

/// What a file is, by its path and, where the path does not say, by its contents. `sparse` says
/// that the share of lines with control flow is under the threshold.
pub open spec fn kind_of(rel: Chars, content: Chars, lines: usize, sparse: bool, cfg: Discover) -> FileKind {
    let parts = pieces(rel, "/"@);
    let file = parts.last();
    let stem = match around_last(file, '.') {
        Some((s, _)) => s,
        None => file,
    };
    let lower = ascii_small(file);
    if under(parts, cfg.vendor_dirs.deep_view()) || ends(lower, ".min.js"@) {
        FileKind::Vendored
    } else if ends(lower, ".d.ts"@) || under(parts, cfg.generated_dirs.deep_view()) || generated(content, cfg) {
        FileKind::Generated
    } else if under(parts, cfg.test_dirs.deep_view()) || starts_any(stem, cfg.test_stem_prefixes.deep_view())
        || ends_any(stem, cfg.test_stem_suffixes.deep_view()) || cfg.test_stems.deep_view().contains(stem) {
        FileKind::Test
    } else if under(parts, cfg.data_dirs.deep_view()) || holds_any(stem, cfg.data_stem_contains.deep_view()) {
        FileKind::Data
    } else if lines >= cfg.data_min_lines && sparse {
        FileKind::Data
    } else {
        FileKind::Source
    }
}

/// Classify one file. `sparse` says that the share of its lines with control flow (see
/// [`logic_lines`]) is under the threshold.
pub fn classify(rel: &str, content: &str, lines: usize, sparse: bool, cfg: &Discover) -> (r: FileKind)
    ensures
        r == kind_of(rel@, content@, lines, sparse, *cfg),
{
    let parts = split(rel, "/");
    let file = parts[parts.len() - 1].as_str();
    assert(parts.deep_view().last() == file@);
    let stem: String = match rsplit_once(file, '.') {
        Some((s, _)) => s,
        None => file.to_owned(),
    };
    let lower = to_ascii_small(file);
    if in_dir(&parts, &cfg.vendor_dirs) || ends_with(lower.as_str(), ".min.js") {
        return FileKind::Vendored;
    }
    if ends_with(lower.as_str(), ".d.ts") || in_dir(&parts, &cfg.generated_dirs) || looks_generated(content, cfg) {
        return FileKind::Generated;
    }
    if in_dir(&parts, &cfg.test_dirs) || starts_with_any(stem.as_str(), &cfg.test_stem_prefixes) || ends_with_any(
        stem.as_str(),
        &cfg.test_stem_suffixes,
    ) || list_has(&cfg.test_stems, stem.as_str()) {
        return FileKind::Test;
    }
    if in_dir(&parts, &cfg.data_dirs) || contains_any(stem.as_str(), &cfg.data_stem_contains) {
        return FileKind::Data;
    }
    if lines >= cfg.data_min_lines && sparse {
        return FileKind::Data;
    }
    FileKind::Source
}

/// The words that mark a line as control flow rather than data.
pub open spec fn marks_logic(t: Chars) -> bool {
    ||| holds(t, "if "@)
    ||| holds(t, "if("@)
    ||| holds(t, "for "@)
    ||| holds(t, "for("@)
    ||| holds(t, "while "@)
    ||| holds(t, "while("@)
    ||| holds(t, "return"@)
    ||| holds(t, "def "@)
    ||| holds(t, "fn "@)
    ||| holds(t, "function"@)
    ||| holds(t, "=>"@)
    ||| holds(t, "class "@)
    ||| holds(t, "match "@)
    ||| holds(t, "switch"@)
    ||| holds(t, "try"@)
    ||| holds(t, "elif "@)
    ||| holds(t, "else"@)
    ||| holds(t, "yield"@)
    ||| holds(t, "await "@)
    ||| holds(t, "impl "@)
}

fn has_logic(t: &str) -> (r: bool)
    ensures
        r == marks_logic(t@),
{
    contains(t, "if ") || contains(t, "if(") || contains(t, "for ") || contains(t, "for(") || contains(t, "while ")
        || contains(t, "while(") || contains(t, "return") || contains(t, "def ") || contains(t, "fn ") || contains(
        t,
        "function",
    ) || contains(t, "=>") || contains(t, "class ") || contains(t, "match ") || contains(t, "switch") || contains(
        t,
        "try",
    ) || contains(t, "elif ") || contains(t, "else") || contains(t, "yield") || contains(t, "await ") || contains(
        t,
        "impl ",
    )
}

/// A line that is neither blank nor a comment.
pub open spec fn counts(line: Chars) -> bool {
    let t = trimmed_start(line);
    t.len() > 0 && !starts(t, "//"@) && !starts(t, "#"@) && !starts(t, "*"@)
}

/// How many lines count, and how many of those carry a control-flow word.
pub open spec fn logic_counts(all: Seq<Chars>) -> (nat, nat)
    decreases all.len(),
{
    if all.len() == 0 {
        (0, 0)
    } else {
        let (logic, total) = logic_counts(all.drop_last());
        if !counts(all.last()) {
            (logic, total)
        } else if marks_logic(trimmed_start(all.last())) {
            (logic + 1, total + 1)
        } else {
            (logic, total + 1)
        }
    }
}

/// `(lines with control flow, lines)` among the lines that are neither blank nor comments. Big
/// literal tables sit near zero; real logic sits well above a tenth.
pub fn logic_lines(content: &str) -> (r: (usize, usize))
    ensures
        (r.0 as nat, r.1 as nat) == logic_counts(lines_of(content@)),
        r.0 <= r.1,
{
    let all = lines(content);
    let ghost view = all.deep_view();
    let mut logic: usize = 0;
    let mut total: usize = 0;
    let mut k: usize = 0;
    assert(view.take(0) =~= Seq::<Chars>::empty());
    while k < all.len()
        invariant
            k <= all.len(),
            view == all.deep_view(),
            logic <= total <= k,
            (logic as nat, total as nat) == logic_counts(view.take(k as int)),
        decreases all.len() - k,
    {
        assert(view.take(k + 1).drop_last() =~= view.take(k as int));
        assert(view[k as int] == all@[k as int]@);
        let t = trim_start(all[k].as_str());
        let s = t.as_str();
        if !(s.is_empty() || starts_with(s, "//") || starts_with(s, "#") || starts_with(s, "*")) {
            total = total + 1;
            if has_logic(s) {
                logic = logic + 1;
            }
        }
        k = k + 1;
    }
    assert(view.take(view.len() as int) =~= view);
    (logic, total)
}

} // verus!
