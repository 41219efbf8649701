//! What one file contributes, the findings of all files, and their text.

use vstd::prelude::*;

use crate::comments::banners::{banner_count, sections_of, top_comments, Section, SectionView};
use crate::comments::lines::LineIndex;
use crate::comments::phases::{phase_comments, unit_phases, Phase, UnitPhases, UnitView};
use crate::comments::titles::Walker;
use crate::config::Comments;
use crate::discover::{base_of, SourceFile};
use crate::regions::{contains, inline_lines, lines_in, within, TestRegion};
use crate::names::{distinct, keys_of, put_entry, with_entry, Names};
use crate::text::{
    around_last, byte_len, capped_size, chars, copy_list, decimal, digits, is_alnum, join, joined, lower, plus, put,
    rsplit_once, same, slice, to_lower, Chars,
};
use crate::tree::{Nodes, SyntaxTree};
use crate::units::FunctionMetrics;

verus! {

/// What one source file contributes.
pub struct FileSide {
    pub path: String,
    /// File lines minus inline test lines: the report's size signal.
    pub source_lines: usize,
    pub lines: usize,
    pub banners: usize,
    pub sections: Vec<Section>,
    pub phase_comments: usize,
    pub units: Vec<UnitPhases>,
}

/// A [`FileSide`] by its contents.
pub struct SideView {
    pub path: Chars,
    pub source_lines: usize,
    pub lines: usize,
    pub banners: nat,
    pub sections: Seq<SectionView>,
    pub phase_comments: usize,
    pub units: Seq<UnitView>,
}

impl DeepView for FileSide {
    type V = SideView;

    open spec fn deep_view(&self) -> SideView {
        SideView {
            path: self.path@,
            source_lines: self.source_lines,
            lines: self.lines,
            banners: self.banners as nat,
            sections: self.sections.deep_view(),
            phase_comments: self.phase_comments,
            units: self.units.deep_view(),
        }
    }
}

/// The bytes of a file.
pub open spec fn bytes_of(f: SourceFile) -> Seq<u8> {
    vstd::utf8::encode_utf8(f.content@)
}

/// A unit whose phases are looked at: complex, long, and not in a test module that is skipped.
pub open spec fn looked_at(fm: FunctionMetrics, start: usize, regions: Seq<TestRegion>, floor: u32, cfg: Comments) -> bool {
    &&& fm.cognitive >= floor
    &&& fm.lines >= cfg.phases.min_span_lines
    &&& !(cfg.phases.skip_test_modules && within(regions, start))
}

/// The complexities of a unit's phases, where they are known.
pub open spec fn estimates_at(estimates: Seq<Vec<u32>>, k: int) -> Seq<u32> {
    if 0 <= k < estimates.len() {
        estimates[k]@
    } else {
        Seq::empty()
    }
}

/// The phase comments, and the units with enough phases, among the first `n` units.
pub open spec fn phased(
    t: Nodes,
    f: SourceFile,
    regions: Seq<TestRegion>,
    funcs: Seq<FunctionMetrics>,
    nodes: Seq<usize>,
    estimates: Seq<Vec<u32>>,
    floor: u32,
    cfg: Comments,
    n: int,
) -> (usize, Seq<UnitView>)
    decreases n,
{
    if n <= 0 {
        (0, Seq::empty())
    } else {
        let (count, units) = phased(t, f, regions, funcs, nodes, estimates, floor, cfg, n - 1);
        let i = nodes[n - 1] as int;
        if looked_at(funcs[n - 1], t[i].start, regions, floor, cfg) {
            (
                capped_size((count + phase_comments(t, i, f.lang, cfg).len()) as nat),
                match unit_phases(t, i, funcs[n - 1], f.lang, bytes_of(f), estimates_at(estimates, n - 1), cfg) {
                    Some(u) => units.push(u),
                    None => units,
                },
            )
        } else {
            (count, units)
        }
    }
}

/// The shorter of two lengths.
pub open spec fn both(a: nat, b: nat) -> int {
    if a < b {
        a as int
    } else {
        b as int
    }
}

/// What a file contributes.
pub open spec fn side_of(
    root: Option<Nodes>,
    f: SourceFile,
    regions: Seq<TestRegion>,
    funcs: Seq<FunctionMetrics>,
    nodes: Seq<usize>,
    estimates: Seq<Vec<u32>>,
    floor: u32,
    cfg: Comments,
) -> SideView {
    let bare = SideView {
        path: f.path@,
        source_lines: if f.lines < lines_in(regions) {
            0
        } else {
            (f.lines - lines_in(regions)) as usize
        },
        lines: f.lines,
        banners: 0,
        sections: Seq::empty(),
        phase_comments: 0,
        units: Seq::empty(),
    };
    match root {
        None => bare,
        Some(t) => {
            let on = cfg.banners.enabled && t.len() > 0;
            let all = phased(t, f, regions, funcs, nodes, estimates, floor, cfg, both(funcs.len(), nodes.len()));
            SideView {
                banners: if on {
                    banner_count(top_comments(t, t[0].children, f.lang, bytes_of(f), cfg.banners))
                } else {
                    0
                },
                sections: if on {
                    sections_of(t, f.lang, bytes_of(f), funcs, cfg.banners)
                } else {
                    Seq::empty()
                },
                phase_comments: all.0,
                units: all.1,
                ..bare
            }
        },
    }
}

/// The nodes of a tree behind a reference, where there is one.
pub open spec fn root_nodes(root: Option<&SyntaxTree>) -> Option<Nodes> {
    match root {
        Some(t) => Some(t@),
        None => None,
    }
}

impl<'c> Walker<'c> {
    /// Banners at the file root and phase comments inside the over-threshold units: `funcs` and
    /// `nodes` are the file's units in the same order, `estimates` the complexities of their
    /// phases.
    pub fn file_side(
        &self,
        root: Option<&SyntaxTree>,
        f: &SourceFile,
        regions: &Vec<TestRegion>,
        funcs: &Vec<FunctionMetrics>,
        nodes: &Vec<usize>,
        estimates: &Vec<Vec<u32>>,
    ) -> (r: FileSide)
        requires
            self.ok(),
            root matches Some(t) ==> t.ok() && forall|k: int| 0 <= k < nodes@.len() ==> #[trigger] nodes@[k] < t@.len(),
        ensures
            r.deep_view() == side_of(
                root_nodes(root),
                *f,
                regions@,
                funcs@,
                nodes@,
                estimates@,
                self.cognitive_min,
                *self.cfg,
            ),
    {
        let inline: usize = inline_lines(regions);
        let source_lines: usize = if f.lines < inline {
            0
        } else {
            f.lines - inline
        };
        let mut sections: Vec<Section> = Vec::new();
        let mut units: Vec<UnitPhases> = Vec::new();
        assert(sections.deep_view() =~= Seq::<SectionView>::empty());
        assert(units.deep_view() =~= Seq::<UnitView>::empty());
        let mut banners: usize = 0;
        let mut count: usize = 0;
        if let Some(t) = root {
            let src = f.content.as_str().as_bytes();
            let lines = LineIndex::new(src);
            assert(src@ == bytes_of(*f));
            if self.cfg.banners.enabled && t.len() > 0 {
                let (n, s) = self.banners(t, f.lang, &lines, funcs);
                banners = n;
                sections = s;
            }
            let empty: Vec<u32> = Vec::new();
            let total: usize = if funcs.len() < nodes.len() {
                funcs.len()
            } else {
                nodes.len()
            };
            let mut k: usize = 0;
            while k < total
                invariant
                    k <= total <= funcs.len(),
                    total <= nodes.len(),
                    self.ok(),
                    t.ok(),
                    forall|k: int| 0 <= k < nodes@.len() ==> #[trigger] nodes@[k] < t@.len(),
                    src@ == bytes_of(*f),
                    lines@ == src@,
                    empty@ == Seq::<u32>::empty(),
                    (count, units.deep_view()) == phased(
                        t@,
                        *f,
                        regions@,
                        funcs@,
                        nodes@,
                        estimates@,
                        self.cognitive_min,
                        *self.cfg,
                        k as int,
                    ),
                decreases total - k,
            {
                let fm = &funcs[k];
                let i: usize = nodes[k];
                assert(nodes@[k as int] < t@.len());
                assert(t@[i as int] == t.nodes@[i as int].deep_view());
                let p = &self.cfg.phases;
                if fm.cognitive >= self.cognitive_min && fm.lines >= p.min_span_lines && !(p.skip_test_modules
                    && contains(regions, t.nodes[i].start)) {
                    let known = if k < estimates.len() {
                        &estimates[k]
                    } else {
                        &empty
                    };
                    let (n, unit) = self.phases(t, i, fm, f.lang, src, &lines, known);
                    count = count.saturating_add(n);
                    if let Some(u) = unit {
                        put(&mut units, u);
                    }
                }
                k = k + 1;
            }
        }
        FileSide {
            path: f.path.as_str().to_owned(),
            source_lines,
            lines: f.lines,
            banners,
            sections,
            phase_comments: count,
            units,
        }
    }
}

// ---------- the banner reason ----------

/// The words of `s`, runs of letters and digits, from one that began at `from` and was read up to
/// `i`, in lower case.
pub open spec fn stems_from(s: Chars, from: int, i: int) -> Seq<Chars>
    decreases s.len() - i,
{
    if i < 0 || i >= s.len() {
        if from < s.len() {
            seq![lower(s.subrange(from, s.len() as int))]
        } else {
            Seq::empty()
        }
    } else if crate::text::alphanumeric(s[i]) {
        stems_from(s, from, i + 1)
    } else if from < i {
        seq![lower(s.subrange(from, i))] + stems_from(s, i + 1, i + 1)
    } else {
        stems_from(s, i + 1, i + 1)
    }
}

/// The words of a title in lower case.
pub open spec fn stems(s: Chars) -> Seq<Chars> {
    stems_from(s, 0, 0)
}

fn stem_list(s: &str) -> (out: Vec<String>)
    ensures
        out.deep_view() == stems(s@),
{
    let a = chars(s);
    let mut out: Vec<String> = Vec::new();
    let mut from: usize = 0;
    let mut i: usize = 0;
    assert(out.deep_view() + stems_from(a@, 0, 0) =~= stems_from(a@, 0, 0));
    while i < a.len()
        invariant
            from <= i <= a.len(),
            a@ == s@,
            stems(a@) == out.deep_view() + stems_from(a@, from as int, i as int),
        decreases a.len() - i,
    {
        if !is_alnum(a[i]) {
            if from < i {
                let ghost done = out.deep_view();
                let ghost rest = stems_from(a@, i + 1, i + 1);
                put(&mut out, to_lower(slice(&a, from, i).as_str()));
                assert(done + (seq![lower(a@.subrange(from as int, i as int))] + rest) =~= out.deep_view() + rest);
            }
            from = i + 1;
        }
        i = i + 1;
    }
    let ghost done = out.deep_view();
    if from < a.len() {
        put(&mut out, to_lower(slice(&a, from, a.len()).as_str()));
        assert(done + seq![lower(a@.subrange(from as int, a@.len() as int))] =~= out.deep_view());
    } else {
        assert(done + Seq::<Chars>::empty() =~= done);
    }
    out
}

/// An article.
pub open spec fn article(w: Chars) -> bool {
    w == "the"@ || w == "a"@ || w == "an"@
}

/// Up to `room` words of more than one byte, from `k` on.
pub open spec fn long_words(words: Seq<Chars>, k: int, room: nat) -> Seq<Chars>
    decreases words.len() - k,
{
    if k < 0 || k >= words.len() || room == 0 {
        Seq::empty()
    } else if byte_len(words[k]) > 1 {
        seq![words[k]] + long_words(words, k + 1, (room - 1) as nat)
    } else {
        long_words(words, k + 1, room)
    }
}

/// The stem made of a title's words.
pub open spec fn stem_of(words: Seq<Chars>) -> Chars {
    let from: int = if words.len() > 1 && article(words[0]) {
        1
    } else {
        0
    };
    let two = long_words(words, from, 2);
    if two.len() > 0 {
        joined(two, "_"@)
    } else if words.len() > 0 {
        words[0]
    } else {
        "section"@
    }
}

/// The stem made of a title's words: the first two of more than one byte after a leading article.
pub fn stem(words: &Vec<String>) -> (out: String)
    ensures
        out@ == stem_of(words.deep_view()),
{
    let ghost view = words.deep_view();
    let mut from: usize = 0;
    if words.len() > 1 {
        assert(view[0] == words@[0]@);
        if same(words[0].as_str(), "the") || same(words[0].as_str(), "a") || same(words[0].as_str(), "an") {
            from = 1;
        }
    }
    let mut two: Vec<String> = Vec::new();
    let mut k: usize = from;
    assert(two.deep_view() + long_words(view, from as int, 2) =~= long_words(view, from as int, 2));
    while k < words.len() && two.len() < 2
        invariant
            from <= k,
            k <= words.len() || k == from,
            two.len() <= 2,
            view == words.deep_view(),
            long_words(view, from as int, 2) == two.deep_view() + long_words(view, k as int, (2 - two.len()) as nat),
        decreases words.len() - k,
    {
        assert(view[k as int] == words@[k as int]@);
        let ghost done = two.deep_view();
        let ghost room = (2 - two.len()) as nat;
        if words[k].as_str().as_bytes().len() > 1 {
            put(&mut two, words[k].as_str().to_owned());
            let ghost rest = long_words(view, k + 1, (room - 1) as nat);
            assert(done + (seq![view[k as int]] + rest) =~= two.deep_view() + rest);
        }
        k = k + 1;
    }
    assert(two.deep_view() + Seq::<Chars>::empty() =~= two.deep_view());
    assert(two.len() == two.deep_view().len());
    if two.len() > 0 {
        join(&two, "_")
    } else if words.len() > 0 {
        assert(view[0] == words@[0]@);
        words[0].as_str().to_owned()
    } else {
        "section".to_owned()
    }
}

/// A file stem for a section title: the first two words after a leading article, lower-case and
/// alphanumeric (`The ladder's value types` → `ladder_value`).
pub fn slug(title: &str) -> (out: String)
    ensures
        out@ == stem_of(stems(title@)),
{
    let words = stem_list(title);
    stem(&words)
}

/// The longest of the first `n` sections, the last of equals.
pub open spec fn longest(sections: Seq<SectionView>, n: int) -> int
    decreases n,
{
    if n <= 1 {
        0
    } else {
        let m = longest(sections, n - 1);
        if sections[n - 1].lines >= sections[m].lines {
            n - 1
        } else {
            m
        }
    }
}

/// No section is longer than the longest, and none after it is as long.
pub proof fn longest_is_longest(sections: Seq<SectionView>, n: int)
    requires
        1 <= n <= sections.len(),
    ensures
        0 <= longest(sections, n) < n,
        forall|k: int| 0 <= k < n ==> (#[trigger] sections[k]).lines <= sections[longest(sections, n)].lines,
        forall|k: int|
            longest(sections, n) < k < n ==> (#[trigger] sections[k]).lines < sections[longest(sections, n)].lines,
    decreases n,
{
    if n > 1 {
        longest_is_longest(sections, n - 1);
    }
}

fn largest(sections: &Vec<Section>) -> (m: usize)
    requires
        sections.len() > 0,
    ensures
        m == longest(sections.deep_view(), sections.deep_view().len() as int),
        m < sections.len(),
{
    let ghost view = sections.deep_view();
    let mut m: usize = 0;
    let mut n: usize = 1;
    while n < sections.len()
        invariant
            1 <= n <= sections.len(),
            m < n,
            view == sections.deep_view(),
            m == longest(view, n as int),
        decreases sections.len() - n,
    {
        assert(view[n as int] == sections@[n as int].deep_view());
        assert(view[m as int] == sections@[m as int].deep_view());
        if sections[n].lines >= sections[m].lines {
            m = n;
        }
        n = n + 1;
    }
    assert(view.len() == sections.len());
    m
}

/// A file as the reason names it: one that stands for its directory, with the directory.
pub open spec fn shown_name(path: Chars) -> Chars {
    match around_last(path, '/') {
        Some((dir, base)) => match around_last(base, '.') {
            Some((stem, _)) => if stem == "mod"@ || stem == "index"@ || stem == "__init__"@ {
                base_of(dir) + "/"@ + base
            } else {
                base
            },
            None => base,
        },
        None => path,
    }
}

fn name_shown(path: &str) -> (out: String)
    ensures
        out@ == shown_name(path@),
{
    match rsplit_once(path, '/') {
        Some((dir, base)) => match rsplit_once(base.as_str(), '.') {
            Some((stem, _)) => if same(stem.as_str(), "mod") || same(stem.as_str(), "index") || same(
                stem.as_str(),
                "__init__",
            ) {
                plus(plus(crate::discover::basename(dir.as_str()), "/"), base.as_str())
            } else {
                base
            },
            None => base,
        },
        None => path.to_owned(),
    }
}

/// A section as the reason names it; the largest with its size.
pub open spec fn section_text(s: SectionView, is_largest: bool) -> Chars {
    "'"@ + s.name + "' "@ + digits(s.start) + "-"@ + digits(s.end) + (if is_largest {
        " ("@ + digits(s.lines) + " lines, "@ + digits(s.functions) + " fn"@ + (if s.functions == 1 {
            Seq::empty()
        } else {
            "s"@
        }) + ")"@
    } else {
        Seq::empty()
    })
}

/// The sections as the reason names them.
pub open spec fn section_texts(sections: Seq<SectionView>) -> Seq<Chars> {
    Seq::new(sections.len(), |i: int| section_text(sections[i], i == longest(sections, sections.len() as int)))
}

/// The line on a file cut into sections.
pub open spec fn banner_text(path: Chars, sections: Seq<SectionView>) -> Chars {
    let base = shown_name(path);
    let stem = stem_of(stems(sections[longest(sections, sections.len() as int)].name));
    let target = match around_last(base, '.') {
        Some((_, ext)) => if ext.len() == 0 {
            stem
        } else {
            stem + "."@ + ext
        },
        None => stem,
    };
    base + " is cut into "@ + digits(sections.len()) + " labelled sections: "@ + joined(section_texts(sections), ", "@)
        + " — extract the largest as "@ + target
}

fn name_section(s: &Section, is_largest: bool) -> (o: String)
    ensures
        o@ == section_text(s.deep_view(), is_largest),
{
    let mut o = "'".to_owned();
    o.append(s.name.as_str());
    o.append("' ");
    o.append(decimal(s.start).as_str());
    o.append("-");
    o.append(decimal(s.end).as_str());
    let mut mark = String::new();
    if is_largest {
        mark = " (".to_owned();
        mark.append(decimal(s.lines).as_str());
        mark.append(" lines, ");
        mark.append(decimal(s.functions).as_str());
        mark.append(" fn");
        let mut many = String::new();
        if s.functions != 1 {
            many = "s".to_owned();
        }
        mark.append(many.as_str());
        mark.append(")");
    }
    o.append(mark.as_str());
    o
}

/// `scan.rs is cut into 4 labelled sections: 'The seals' 62-232, …, 'The ladder' 314-978 (665
/// lines, 12 fns), … — extract the largest as ladder.rs`.
pub fn banner_reason(path: &str, sections: &Vec<Section>) -> (o: String)
    requires
        sections.len() > 0,
    ensures
        o@ == banner_text(path@, sections.deep_view()),
{
    let ghost view = sections.deep_view();
    let base = name_shown(path);
    let m = largest(sections);
    let mut names: Vec<String> = Vec::new();
    let mut i: usize = 0;
    while i < sections.len()
        invariant
            i <= sections.len(),
            names.len() == i,
            view == sections.deep_view(),
            m == longest(view, view.len() as int),
            forall|k: int| 0 <= k < i ==> (#[trigger] names@[k])@ == section_texts(view)[k],
        decreases sections.len() - i,
    {
        assert(view[i as int] == sections@[i as int].deep_view());
        names.push(name_section(&sections[i], i == m));
        i = i + 1;
    }
    assert(view.len() == sections.len());
    assert(names.deep_view() =~= section_texts(view));
    assert(view[m as int] == sections@[m as int].deep_view());
    let stem = slug(sections[m].name.as_str());
    let target = match rsplit_once(base.as_str(), '.') {
        Some((_, ext)) => if ext.as_str().unicode_len() == 0 {
            stem
        } else {
            plus(plus(stem, "."), ext.as_str())
        },
        None => stem,
    };
    let mut o = base;
    o.append(" is cut into ");
    o.append(decimal(sections.len()).as_str());
    o.append(" labelled sections: ");
    o.append(join(&names, ", ").as_str());
    o.append(" — extract the largest as ");
    o.append(target.as_str());
    o
}

// ---------- all files ----------

/// How large a file is among the source files.
pub struct SizeRank {
    /// At or above the percentile the settings ask for.
    pub above: bool,
    /// Its percentile (0-100), rounded.
    pub percentile: String,
}

/// A [`SizeRank`] by its contents.
pub struct RankView {
    pub above: bool,
    pub percentile: Chars,
}

impl DeepView for SizeRank {
    type V = RankView;

    open spec fn deep_view(&self) -> RankView {
        RankView { above: self.above, percentile: self.percentile@ }
    }
}

/// The findings on one file.
pub struct FileComments {
    /// Top-level banner comments.
    pub banners: usize,
    /// Every labelled section, thresholds aside.
    pub sections: Vec<Section>,
    /// `lines`, `min_sections` and `min_section_lines` are met; the report prints the reason when
    /// the file is also above the size percentile or in the printed hotspot list.
    pub qualifies: bool,
    /// Percentile (0-100) of source lines among source files.
    pub size_percentile: String,
    pub above_size_percentile: bool,
    /// The banner annotation line, set when `qualifies`.
    pub banner_reason: Option<String>,
    pub phase_comments: usize,
    /// Units over the cognitive threshold with enough labelled phases.
    pub units: Vec<UnitPhases>,
}

/// A [`FileComments`] by its contents.
pub struct FileView {
    pub banners: nat,
    pub sections: Seq<SectionView>,
    pub qualifies: bool,
    pub size_percentile: Chars,
    pub above_size_percentile: bool,
    pub banner_reason: Option<Chars>,
    pub phase_comments: usize,
    pub units: Seq<UnitView>,
}

impl DeepView for FileComments {
    type V = FileView;

    open spec fn deep_view(&self) -> FileView {
        FileView {
            banners: self.banners as nat,
            sections: self.sections.deep_view(),
            qualifies: self.qualifies,
            size_percentile: self.size_percentile@,
            above_size_percentile: self.above_size_percentile,
            banner_reason: self.banner_reason.deep_view(),
            phase_comments: self.phase_comments,
            units: self.units.deep_view(),
        }
    }
}

/// The sums over all files.
#[derive(Clone, Copy)]
pub struct Totals {
    pub files: usize,
    pub banners: usize,
    pub files_with_banners: usize,
    /// Files whose sections meet every banner threshold, percentile included.
    pub banner_hits: usize,
    /// Files meeting the file-local thresholds but not the size percentile (the report still
    /// prints them when they are in the hotspot list).
    pub banner_below_percentile: usize,
    pub phase_comments: usize,
    pub phase_hits: usize,
}

/// The findings of all files, by path, in the order of the files.
pub struct CommentsReport {
    pub totals: Totals,
    pub files: Vec<(String, FileComments)>,
}

/// A [`CommentsReport`] by its contents.
pub struct CommentsView {
    pub totals: Totals,
    pub files: Seq<(Chars, FileView)>,
}

impl View for CommentsReport {
    type V = CommentsView;

    open spec fn view(&self) -> CommentsView {
        CommentsView { totals: self.totals, files: self.files.deep_view() }
    }
}

/// The file-local thresholds are met.
pub open spec fn qualified(s: SideView, cfg: Comments) -> bool {
    let b = cfg.banners;
    &&& b.enabled
    &&& s.lines >= b.min_file_lines
    &&& s.sections.len() >= b.min_sections
    &&& s.sections.len() > 0
    &&& s.sections[longest(s.sections, s.sections.len() as int)].lines >= b.min_section_lines
}

/// How large the file at `k` is; no larger than any where that is not known.
pub open spec fn rank_at(ranks: Seq<RankView>, k: int) -> RankView {
    if 0 <= k < ranks.len() {
        ranks[k]
    } else {
        RankView { above: false, percentile: Seq::empty() }
    }
}

/// The findings on one file.
pub open spec fn file_of(s: SideView, rank: RankView, cfg: Comments) -> FileView {
    FileView {
        banners: s.banners,
        sections: s.sections,
        qualifies: qualified(s, cfg),
        size_percentile: rank.percentile,
        above_size_percentile: rank.above,
        banner_reason: if qualified(s, cfg) {
            Some(banner_text(s.path, s.sections))
        } else {
            None
        },
        phase_comments: s.phase_comments,
        units: s.units,
    }
}

/// The findings on the first `n` files, one entry for a path: that of the last file of that path.
pub open spec fn files_upto(sides: Seq<SideView>, ranks: Seq<RankView>, cfg: Comments, n: int) -> Seq<(Chars, FileView)>
    decreases n,
{
    if n <= 0 {
        Seq::empty()
    } else {
        let s = sides[n - 1];
        with_entry(files_upto(sides, ranks, cfg, n - 1), s.path, file_of(s, rank_at(ranks, n - 1), cfg))
    }
}

/// A sum as a machine holds it.
pub open spec fn more(a: usize, b: nat) -> usize {
    capped_size((a + b) as nat)
}

/// One, where it holds.
pub open spec fn one_if(b: bool) -> nat {
    if b {
        1
    } else {
        0
    }
}

/// The sums over the first `n` of all files.
pub open spec fn totals_upto(sides: Seq<SideView>, ranks: Seq<RankView>, cfg: Comments, n: int) -> Totals
    decreases n,
{
    if n <= 0 {
        Totals {
            files: sides.len() as usize,
            banners: 0,
            files_with_banners: 0,
            banner_hits: 0,
            banner_below_percentile: 0,
            phase_comments: 0,
            phase_hits: 0,
        }
    } else {
        let t = totals_upto(sides, ranks, cfg, n - 1);
        let s = sides[n - 1];
        let above = rank_at(ranks, n - 1).above;
        Totals {
            files: t.files,
            banners: more(t.banners, s.banners),
            files_with_banners: more(t.files_with_banners, one_if(s.banners > 0)),
            banner_hits: more(t.banner_hits, one_if(qualified(s, cfg) && above)),
            banner_below_percentile: more(t.banner_below_percentile, one_if(qualified(s, cfg) && !above)),
            phase_comments: more(t.phase_comments, s.phase_comments as nat),
            phase_hits: more(t.phase_hits, s.units.len()),
        }
    }
}

/// The findings of all files.
pub open spec fn report_of(sides: Seq<SideView>, ranks: Seq<RankView>, cfg: Comments) -> CommentsView {
    CommentsView {
        totals: totals_upto(sides, ranks, cfg, sides.len() as int),
        files: files_upto(sides, ranks, cfg, sides.len() as int),
    }
}

fn copy_sections(list: &Vec<Section>) -> (out: Vec<Section>)
    ensures
        out.deep_view() == list.deep_view(),
{
    let mut out: Vec<Section> = Vec::new();
    let mut k: usize = 0;
    while k < list.len()
        invariant
            k <= list.len(),
            out.len() == k,
            forall|j: int| 0 <= j < k ==> (#[trigger] out@[j]).deep_view() == list@[j].deep_view(),
        decreases list.len() - k,
    {
        let s = &list[k];
        out.push(
            Section {
                name: s.name.as_str().to_owned(),
                start: s.start,
                end: s.end,
                lines: s.lines,
                functions: s.functions,
            },
        );
        k = k + 1;
    }
    assert(out.deep_view() =~= list.deep_view());
    out
}

fn copy_phases(list: &Vec<Phase>) -> (out: Vec<Phase>)
    ensures
        out.deep_view() == list.deep_view(),
{
    let mut out: Vec<Phase> = Vec::new();
    let mut k: usize = 0;
    while k < list.len()
        invariant
            k <= list.len(),
            out.len() == k,
            forall|j: int| 0 <= j < k ==> (#[trigger] out@[j]).deep_view() == list@[j].deep_view(),
        decreases list.len() - k,
    {
        let p = &list[k];
        out.push(
            Phase {
                label: p.label.as_str().to_owned(),
                start: p.start,
                end: p.end,
                lines: p.lines,
                est_cognitive: p.est_cognitive,
                shared_locals: copy_list(&p.shared_locals),
            },
        );
        k = k + 1;
    }
    assert(out.deep_view() =~= list.deep_view());
    out
}

fn copy_units(list: &Vec<UnitPhases>) -> (out: Vec<UnitPhases>)
    ensures
        out.deep_view() == list.deep_view(),
{
    let mut out: Vec<UnitPhases> = Vec::new();
    let mut k: usize = 0;
    while k < list.len()
        invariant
            k <= list.len(),
            out.len() == k,
            forall|j: int| 0 <= j < k ==> (#[trigger] out@[j]).deep_view() == list@[j].deep_view(),
        decreases list.len() - k,
    {
        let u = &list[k];
        out.push(
            UnitPhases {
                unit: u.unit.as_str().to_owned(),
                start_line: u.start_line,
                end_line: u.end_line,
                cognitive: u.cognitive,
                phases: copy_phases(&u.phases),
                shared_locals: copy_list(&u.shared_locals),
                reason: u.reason.as_str().to_owned(),
            },
        );
        k = k + 1;
    }
    assert(out.deep_view() =~= list.deep_view());
    out
}

fn find_file(s: &FileSide, above: bool, percentile: &str, cfg: &Comments) -> (r: FileComments)
    ensures
        r.deep_view() == file_of(s.deep_view(), RankView { above, percentile: percentile@ }, *cfg),
{
    let b = &cfg.banners;
    let ghost view = s.sections.deep_view();
    assert(view.len() == s.sections.len());
    let qualifies = if b.enabled && s.lines >= b.min_file_lines && s.sections.len() >= b.min_sections
        && s.sections.len() > 0 {
        let m = largest(&s.sections);
        assert(view[m as int] == s.sections@[m as int].deep_view());
        s.sections[m].lines >= b.min_section_lines
    } else {
        false
    };
    let reason = if qualifies {
        Some(banner_reason(s.path.as_str(), &s.sections))
    } else {
        None
    };
    FileComments {
        banners: s.banners,
        sections: copy_sections(&s.sections),
        qualifies,
        size_percentile: percentile.to_owned(),
        above_size_percentile: above,
        banner_reason: reason,
        phase_comments: s.phase_comments,
        units: copy_units(&s.units),
    }
}

fn one(b: bool) -> (n: usize)
    ensures
        n == one_if(b),
{
    if b {
        1
    } else {
        0
    }
}

/// The per-file findings with the size percentile applied and the banner reason worded; `ranks`
/// says how large each file is.
pub fn analyze(sides: &Vec<FileSide>, ranks: &Vec<SizeRank>, cfg: &Comments) -> (r: CommentsReport)
    ensures
        r@ == report_of(sides.deep_view(), ranks.deep_view(), *cfg),
        distinct(keys_of(r@.files)),
{
    let ghost view = sides.deep_view();
    let ghost rv = ranks.deep_view();
    assert(view.len() == sides.len());
    let mut t = Totals {
        files: sides.len(),
        banners: 0,
        files_with_banners: 0,
        banner_hits: 0,
        banner_below_percentile: 0,
        phase_comments: 0,
        phase_hits: 0,
    };
    let mut files: Vec<(String, FileComments)> = Vec::new();
    let empty = String::new();
    assert(empty@ =~= Seq::<char>::empty());
    let mut i: usize = 0;
    let mut names = Names::new();
    assert(files.deep_view() =~= Seq::<(Chars, FileView)>::empty());
    assert(names@ =~= keys_of(files.deep_view()));
    while i < sides.len()
        invariant
            i <= sides.len(),
            view == sides.deep_view(),
            rv == ranks.deep_view(),
            empty@ == Seq::<char>::empty(),
            t == totals_upto(view, rv, *cfg, i as int),
            names.ok(),
            names@ == keys_of(files.deep_view()),
            files.deep_view() == files_upto(view, rv, *cfg, i as int),
        decreases sides.len() - i,
    {
        let s = &sides[i];
        assert(view[i as int] == s.deep_view());
        assert(i < ranks.len() ==> rv[i as int] == ranks@[i as int].deep_view());
        let above = if i < ranks.len() {
            ranks[i].above
        } else {
            false
        };
        let percentile = if i < ranks.len() {
            ranks[i].percentile.as_str()
        } else {
            empty.as_str()
        };
        let f = find_file(s, above, percentile, cfg);
        let q = f.qualifies;
        assert(s.units.len() == s.units.deep_view().len());
        t = Totals {
            files: t.files,
            banners: t.banners.saturating_add(s.banners),
            files_with_banners: t.files_with_banners.saturating_add(one(s.banners > 0)),
            banner_hits: t.banner_hits.saturating_add(one(q && above)),
            banner_below_percentile: t.banner_below_percentile.saturating_add(one(q && !above)),
            phase_comments: t.phase_comments.saturating_add(s.phase_comments),
            phase_hits: t.phase_hits.saturating_add(s.units.len()),
        };
        put_entry(&mut names, &mut files, s.path.as_str(), f);
        i = i + 1;
    }
    proof {
        names.are_distinct();
    }
    CommentsReport { totals: t, files }
}

} // verus!
