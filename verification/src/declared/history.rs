//! What history adds to a finding, and the lines findings print.

use vstd::prelude::*;

use crate::declared::features::{copy_comment, Feature, FeatureState, FeatureView};
use crate::declared::knobs::{line_range, range_text};
use crate::declared::manifest::{Manifest, ManifestView};
use crate::declared::orphans::{copy_place, Orphan, OrphanView, Pass, PassView};
use crate::declared::scope::{git_paths, history_paths, paths_at, scope_name, scope_of, scope_paths, scope_text};
use crate::declared::words::{plural, plural_of};
use crate::fallback::reasons::{join_and, listed};
use crate::text::{
    after_last, capped_size, chars, copy_list, decimal, digits, has_char, last_piece, lines, lines_of, pieces, plus, put, same, slice, split,
    split_once, strip_end, stripped_end, trim, trimmed, around_first, Chars,
};

verus! {

/// One question to history.
pub struct Lookup {
    /// About a feature, else about an orphan.
    pub feature: bool,
    /// Its place among the features or the orphans.
    pub index: usize,
    /// The manifest whose line declares it.
    pub manifest: String,
    /// The text of that line: the oldest commit that changed how often the manifest holds it is the
    /// birth.
    pub needle: String,
    /// The text of a use: the newest commit that changed how often `paths` hold it removed the last.
    pub usage: String,
    pub paths: Vec<String>,
}

/// A [`Lookup`] by its contents.
pub struct LookupView {
    pub feature: bool,
    pub index: usize,
    pub manifest: Chars,
    pub needle: Chars,
    pub usage: Chars,
    pub paths: Seq<Chars>,
}

impl DeepView for Lookup {
    type V = LookupView;

    open spec fn deep_view(&self) -> LookupView {
        LookupView {
            feature: self.feature,
            index: self.index,
            manifest: self.manifest@,
            needle: self.needle@,
            usage: self.usage@,
            paths: self.paths.deep_view(),
        }
    }
}

/// What history answers.
pub struct Answer {
    /// The birth: (short hash, date, time in seconds).
    pub birth: Option<(String, String, i64)>,
    /// Commits since the birth.
    pub since: Option<usize>,
    /// The last commit that still had a use, the commit that removed it, and its date.
    pub ever: Option<(String, String, String)>,
    /// The commit that removed the last use of a feature: (short hash, date).
    pub removed: Option<(String, String)>,
}

/// An [`Answer`] by its contents.
pub struct AnswerView {
    pub birth: Option<(Chars, Chars, i64)>,
    pub since: Option<usize>,
    pub ever: Option<(Chars, Chars, Chars)>,
    pub removed: Option<(Chars, Chars)>,
}

impl DeepView for Answer {
    type V = AnswerView;

    open spec fn deep_view(&self) -> AnswerView {
        AnswerView {
            birth: self.birth.deep_view(),
            since: self.since,
            ever: self.ever.deep_view(),
            removed: self.removed.deep_view(),
        }
    }
}

/// The time of the newest commit, and the answers in the order of the lookups.
pub struct History {
    pub head: i64,
    pub answers: Vec<Answer>,
}

/// A [`History`] by its contents.
pub struct HistoryView {
    pub head: i64,
    pub answers: Seq<AnswerView>,
}

impl DeepView for History {
    type V = HistoryView;

    open spec fn deep_view(&self) -> HistoryView {
        HistoryView { head: self.head, answers: self.answers.deep_view() }
    }
}

// ---------- what history prints ----------

/// The fields of a log line, as far as they are there.
pub open spec fn log_fields(line: Chars) -> Option<(Chars, Chars, Chars)> {
    let parts = pieces(line, "\t"@);
    if parts.len() >= 3 {
        Some((parts[0], parts[1], parts[2]))
    } else {
        None
    }
}

/// Hash, date and time of the last line of a log: the oldest commit.
pub fn oldest(log: &str) -> (r: Option<(String, String, String)>)
    ensures
        r.deep_view() == (if lines_of(log@).len() == 0 {
            None
        } else {
            log_fields(lines_of(log@).last())
        }),
{
    let list = lines(log);
    let ghost view = list.deep_view();
    assert(view.len() == list.len());
    if list.len() == 0 {
        return None;
    }
    assert(view.last() == list@[list.len() - 1]@);
    let parts = split(list[list.len() - 1].as_str(), "\t");
    let ghost pv = parts.deep_view();
    assert(pv.len() == parts.len());
    if parts.len() >= 3 {
        assert(pv[0] == parts@[0]@);
        assert(pv[1] == parts@[1]@);
        assert(pv[2] == parts@[2]@);
        Some((parts[0].clone(), parts[1].clone(), parts[2].clone()))
    } else {
        None
    }
}

/// Hash and date of the first line of a log: the newest commit.
pub fn newest(log: &str) -> (r: Option<(String, String)>)
    ensures
        r.deep_view() == (if lines_of(log@).len() == 0 {
            None
        } else {
            around_first(lines_of(log@)[0], '\t')
        }),
{
    let list = lines(log);
    let ghost view = list.deep_view();
    assert(view.len() == list.len());
    if list.len() == 0 {
        return None;
    }
    assert(view[0] == list@[0]@);
    split_once(list[0].as_str(), '\t')
}

/// Whole days from one time to another, to the nearest; none where it lies ahead.
pub open spec fn days_between(from: i64, to: i64) -> nat {
    if to <= from {
        0
    } else {
        ((to - from + 43200) / 86400) as nat
    }
}

/// Whole days from one time to another, to the nearest.
pub fn age_in_days(from: i64, to: i64) -> (n: usize)
    ensures
        n == capped_size(days_between(from, to)),
{
    if to <= from {
        return 0;
    }
    let d: i128 = (to as i128 - from as i128 + 43200) / 86400;
    if d <= usize::MAX as i128 {
        d as usize
    } else {
        usize::MAX
    }
}

// ---------- questions ----------

/// The last of the first `n` manifests at a path.
pub open spec fn manifest_at(ms: Seq<ManifestView>, path: Chars, n: int) -> Option<int>
    decreases n,
{
    if n <= 0 {
        None
    } else if ms[n - 1].path == path {
        Some(n - 1)
    } else {
        manifest_at(ms, path, n - 1)
    }
}

/// The paths of the scope of manifest `i`.
pub open spec fn scope_files(p: PassView, i: int) -> Seq<Chars> {
    paths_at(p.sides, scope_of(p.manifests, p.sides, i))
}

/// How the scope of the manifest at a path is named.
pub open spec fn scope_label(p: PassView, path: Chars) -> Chars {
    match manifest_at(p.manifests, path, p.manifests.len() as int) {
        Some(i) => scope_name(p.manifests[i].dir, scope_files(p, i)),
        None => "src/"@,
    }
}

/// The paths history is asked about for the manifest at a path.
pub open spec fn lookup_paths(p: PassView, path: Chars) -> Seq<Chars> {
    match manifest_at(p.manifests, path, p.manifests.len() as int) {
        Some(i) => history_paths(p.manifests[i].dir, scope_files(p, i)),
        None => Seq::empty(),
    }
}

fn index_of_manifest(ms: &Vec<Manifest>, path: &str) -> (r: Option<usize>)
    ensures
        crate::text::as_int(r) == manifest_at(ms.deep_view(), path@, ms.len() as int),
        r matches Some(i) ==> i < ms.len(),
{
    let ghost view = ms.deep_view();
    let mut k: usize = ms.len();
    while k > 0
        invariant
            k <= ms.len(),
            view == ms.deep_view(),
            manifest_at(view, path@, ms.len() as int) == manifest_at(view, path@, k as int),
        decreases k,
    {
        assert(view[k - 1] == ms@[k - 1].deep_view());
        if same(ms[k - 1].path.as_str(), path) {
            return Some(k - 1);
        }
        k = k - 1;
    }
    None
}

/// How the scope of the manifest at a path is named.
pub fn label_of(p: &Pass, path: &str) -> (o: String)
    requires
        p.ok(),
    ensures
        o@ == scope_label(p@, path@),
{
    assert(p.manifests.len() == p@.manifests.len());
    match index_of_manifest(p.manifests, path) {
        Some(i) => {
            assert(p@.manifests[i as int] == p.manifests@[i as int].deep_view());
            scope_text(p.manifests[i].dir.as_str(), &scope_paths(p.sides, p.scope_at(i)))
        },
        None => "src/".to_owned(),
    }
}

fn paths_of(p: &Pass, path: &str) -> (out: Vec<String>)
    requires
        p.ok(),
    ensures
        out.deep_view() == lookup_paths(p@, path@),
{
    assert(p.manifests.len() == p@.manifests.len());
    match index_of_manifest(p.manifests, path) {
        Some(i) => {
            assert(p@.manifests[i as int] == p.manifests@[i as int].deep_view());
            git_paths(p.manifests[i].dir.as_str(), &scope_paths(p.sides, p.scope_at(i)))
        },
        None => {
            let out: Vec<String> = Vec::new();
            assert(out.deep_view() =~= Seq::<Chars>::empty());
            out
        },
    }
}

/// The question about an orphan.
pub open spec fn ask_orphan(p: PassView, o: OrphanView, i: usize) -> LookupView {
    LookupView {
        feature: false,
        index: i,
        manifest: o.manifest,
        needle: o.name,
        usage: o.ident + "::"@,
        paths: lookup_paths(p, o.manifest),
    }
}

/// The question about a feature.
pub open spec fn ask_feature(p: PassView, f: FeatureView, i: usize) -> LookupView {
    LookupView {
        feature: true,
        index: i,
        manifest: f.manifest,
        needle: f.name + " = ["@,
        usage: "feature = \""@ + f.name + "\""@,
        paths: lookup_paths(p, f.manifest),
    }
}

/// The questions about the first `n` orphans: the optional ones print through their feature.
pub open spec fn ask_orphans(p: PassView, list: Seq<OrphanView>, n: int) -> Seq<LookupView>
    decreases n,
{
    if n <= 0 {
        Seq::empty()
    } else if list[n - 1].optional {
        ask_orphans(p, list, n - 1)
    } else {
        ask_orphans(p, list, n - 1).push(ask_orphan(p, list[n - 1], (n - 1) as usize))
    }
}

/// The questions about the dead ones among the first `n` features.
pub open spec fn ask_features(p: PassView, list: Seq<FeatureView>, n: int) -> Seq<LookupView>
    decreases n,
{
    if n <= 0 {
        Seq::empty()
    } else if list[n - 1].state == FeatureState::Dead {
        ask_features(p, list, n - 1).push(ask_feature(p, list[n - 1], (n - 1) as usize))
    } else {
        ask_features(p, list, n - 1)
    }
}

/// Every question: the orphans first, then the dead features.
pub open spec fn asked(p: PassView, orphans: Seq<OrphanView>, features: Seq<FeatureView>) -> Seq<LookupView> {
    ask_orphans(p, orphans, orphans.len() as int) + ask_features(p, features, features.len() as int)
}

/// Every question: the orphans first, then the dead features.
pub fn lookups(p: &Pass, orphans: &Vec<Orphan>, features: &Vec<Feature>) -> (out: Vec<Lookup>)
    requires
        p.ok(),
    ensures
        out.deep_view() == asked(p@, orphans.deep_view(), features.deep_view()),
{
    let ghost ov = orphans.deep_view();
    let ghost fv = features.deep_view();
    let mut out: Vec<Lookup> = Vec::new();
    assert(out.deep_view() =~= Seq::<LookupView>::empty());
    let mut k: usize = 0;
    while k < orphans.len()
        invariant
            k <= orphans.len(),
            p.ok(),
            ov == orphans.deep_view(),
            out.deep_view() == ask_orphans(p@, ov, k as int),
        decreases orphans.len() - k,
    {
        let o = &orphans[k];
        assert(ov[k as int] == o.deep_view());
        if !o.optional {
            put(
                &mut out,
                Lookup {
                    feature: false,
                    index: k,
                    manifest: o.manifest.clone(),
                    needle: o.name.clone(),
                    usage: plus(o.ident.clone(), "::"),
                    paths: paths_of(p, o.manifest.as_str()),
                },
            );
        }
        k = k + 1;
    }
    assert(ov.len() == orphans.len());
    let ghost first = out.deep_view();
    assert(first + Seq::<LookupView>::empty() =~= first);
    let mut k: usize = 0;
    while k < features.len()
        invariant
            k <= features.len(),
            p.ok(),
            fv == features.deep_view(),
            out.deep_view() == first + ask_features(p@, fv, k as int),
        decreases features.len() - k,
    {
        let f = &features[k];
        assert(fv[k as int] == f.deep_view());
        if f.state == FeatureState::Dead {
            let mut usage = "feature = \"".to_owned();
            usage.append(f.name.as_str());
            usage.append("\"");
            let x = Lookup {
                feature: true,
                index: k,
                manifest: f.manifest.clone(),
                needle: plus(f.name.clone(), " = ["),
                usage,
                paths: paths_of(p, f.manifest.as_str()),
            };
            let ghost xv = x.deep_view();
            let ghost rest = ask_features(p@, fv, k as int);
            put(&mut out, x);
            assert(first + rest.push(xv) =~= (first + rest).push(xv));
        }
        k = k + 1;
    }
    assert(fv.len() == features.len());
    out
}

// ---------- answers ----------

/// The answer, from question `k` on, about a finding; only the first `max` questions are asked.
pub open spec fn answer_from(
    work: Seq<LookupView>,
    h: HistoryView,
    max: usize,
    feature: bool,
    index: usize,
    k: int,
) -> Option<AnswerView>
    decreases work.len() - k,
{
    if k < 0 || k >= work.len() || k >= max || k >= h.answers.len() {
        None
    } else if work[k].feature == feature && work[k].index == index {
        Some(h.answers[k])
    } else {
        answer_from(work, h, max, feature, index, k + 1)
    }
}

/// The answer about a finding, where history is asked.
pub open spec fn answer_to(
    work: Seq<LookupView>,
    h: Option<HistoryView>,
    max: usize,
    feature: bool,
    index: usize,
) -> Option<AnswerView> {
    match h {
        Some(x) => answer_from(work, x, max, feature, index, 0),
        None => None,
    }
}

/// The answer about a finding, where history is asked.
pub fn answer<'h>(work: &Vec<Lookup>, h: &'h Option<History>, max: usize, feature: bool, index: usize) -> (r: Option<
    &'h Answer,
>)
    ensures
        (match r {
            Some(x) => Some(x.deep_view()),
            None => None,
        }) == answer_to(work.deep_view(), h.deep_view(), max, feature, index),
{
    let ghost wv = work.deep_view();
    match h {
        None => None,
        Some(x) => {
            let ghost hv = x.deep_view();
            let mut k: usize = 0;
            while k < work.len() && k < max && k < x.answers.len()
                invariant
                    k <= work.len(),
                    wv == work.deep_view(),
                    hv == x.deep_view(),
                    h.deep_view() == Some(hv),
                    answer_from(wv, hv, max, feature, index, 0) == answer_from(wv, hv, max, feature, index, k as int),
                decreases work.len() - k,
            {
                assert(wv[k as int] == work@[k as int].deep_view());
                assert(hv.answers[k as int] == x.answers@[k as int].deep_view());
                if work[k].feature == feature && work[k].index == index {
                    return Some(&x.answers[k]);
                }
                k = k + 1;
            }
            None
        },
    }
}

/// The answer says that a finding is younger than `min` commits.
pub open spec fn too_young(a: Option<AnswerView>, min: usize) -> bool {
    match a {
        Some(x) => match x.since {
            Some(n) => n < min,
            None => false,
        },
        None => false,
    }
}

/// Is a finding younger than `min` commits?
pub fn is_young(a: Option<&Answer>, min: usize) -> (r: bool)
    ensures
        r == too_young(
            match a {
                Some(x) => Some(x.deep_view()),
                None => None,
            },
            min,
        ),
{
    match a {
        Some(x) => match x.since {
            Some(n) => n < min,
            None => false,
        },
        None => false,
    }
}

// ---------- lines ----------

/// ` since abc (3 days, 6 commits)`.
pub open spec fn since_clause(o: OrphanView) -> Chars {
    match o.birth {
        Some((h, _)) => match (o.age_days, o.commits_since) {
            (Some(days), Some(n)) => " since "@ + h + " ("@ + plural_of(days as nat, "day"@, "days"@) + ", "@ + plural_of(
                n as nat,
                "commit"@,
                "commits"@,
            ) + ")"@,
            _ => " since "@ + h,
        },
        None => Seq::empty(),
    }
}

/// How a dependency was last used.
pub open spec fn imported_clause(o: OrphanView, scope: Chars) -> Chars {
    match o.ever_imported {
        Some((last, removed, date)) => "last used in "@ + last + ", removed in "@ + removed + " ("@ + date + ")"@,
        None => "never imported by any "@ + scope + " file"@,
    }
}

/// The line of an orphan.
pub open spec fn orphan_line(o: OrphanView, scope: Chars) -> Chars {
    o.name + " declared in "@ + o.manifest + ":"@ + digits(o.line as nat) + (if o.section == "dependencies"@ {
        Seq::empty()
    } else {
        " under ["@ + o.section + "]"@
    }) + since_clause(o) + " and "@ + imported_clause(o, scope) + (match o.doc_mention {
        Some((f, l)) => "; mentioned in "@ + f + ":"@ + digits(l as nat),
        None => Seq::empty(),
    }) + (match o.lint_silenced {
        Some((f, l)) => "; the crate silences warnings (#![allow] at "@ + f + ":"@ + digits(l as nat) + ")"@,
        None => Seq::empty(),
    }) + " - wire it or drop it"@
}

/// An orphan with what history says of it.
pub open spec fn told_orphan(o: OrphanView, a: Option<AnswerView>, head: i64) -> OrphanView {
    match a {
        Some(x) => OrphanView {
            birth: match x.birth {
                Some((h, d, _)) => Some((h, d)),
                None => None,
            },
            age_days: match x.birth {
                Some((_, _, at)) => Some(capped_size(days_between(at, head))),
                None => None,
            },
            commits_since: x.since,
            ever_imported: x.ever,
            ..o
        },
        None => o,
    }
}

/// An orphan with what history says of it, and its line.
pub open spec fn settled_orphan(o: OrphanView, a: Option<AnswerView>, head: i64, scope: Chars) -> OrphanView {
    let told = told_orphan(o, a, head);
    OrphanView { line_text: orphan_line(told, scope), ..told }
}

fn no_text() -> (o: String)
    ensures
        o@ == Seq::<char>::empty(),
{
    let o = String::new();
    assert(o@ =~= Seq::<char>::empty());
    o
}

fn since_text(o: &Orphan) -> (r: String)
    ensures
        r@ == since_clause(o.deep_view()),
{
    match &o.birth {
        Some(b) => {
            let mut r = " since ".to_owned();
            r.append(b.0.as_str());
            if let Some(days) = o.age_days {
                if let Some(n) = o.commits_since {
                    r.append(" (");
                    r.append(plural(days, "day", "days").as_str());
                    r.append(", ");
                    r.append(plural(n, "commit", "commits").as_str());
                    r.append(")");
                }
            }
            r
        },
        None => no_text(),
    }
}

fn imported_text(o: &Orphan, scope: &str) -> (r: String)
    ensures
        r@ == imported_clause(o.deep_view(), scope@),
{
    match &o.ever_imported {
        Some(e) => {
            let mut r = "last used in ".to_owned();
            r.append(e.0.as_str());
            r.append(", removed in ");
            r.append(e.1.as_str());
            r.append(" (");
            r.append(e.2.as_str());
            r.append(")");
            r
        },
        None => plus(plus("never imported by any ".to_owned(), scope), " file"),
    }
}

fn mention_text(m: &Option<(String, usize)>) -> (r: String)
    ensures
        r@ == (match m.deep_view() {
            Some((f, l)) => "; mentioned in "@ + f + ":"@ + digits(l as nat),
            None => Seq::empty(),
        }),
{
    match m {
        Some(x) => {
            let mut r = "; mentioned in ".to_owned();
            r.append(x.0.as_str());
            r.append(":");
            r.append(decimal(x.1).as_str());
            r
        },
        None => no_text(),
    }
}

fn silenced_text(m: &Option<(String, usize)>) -> (r: String)
    ensures
        r@ == (match m.deep_view() {
            Some((f, l)) => "; the crate silences warnings (#![allow] at "@ + f + ":"@ + digits(l as nat) + ")"@,
            None => Seq::empty(),
        }),
{
    match m {
        Some(x) => {
            let mut r = "; the crate silences warnings (#![allow] at ".to_owned();
            r.append(x.0.as_str());
            r.append(":");
            r.append(decimal(x.1).as_str());
            r.append(")");
            r
        },
        None => no_text(),
    }
}

fn section_text(section: &str) -> (r: String)
    ensures
        r@ == (if section@ == "dependencies"@ {
            Seq::empty()
        } else {
            " under ["@ + section@ + "]"@
        }),
{
    if same(section, "dependencies") {
        no_text()
    } else {
        plus(plus(" under [".to_owned(), section), "]")
    }
}

fn line_of_orphan(o: &Orphan, scope: &str) -> (r: String)
    ensures
        r@ == orphan_line(o.deep_view(), scope@),
{
    let mut r = o.name.clone();
    r.append(" declared in ");
    r.append(o.manifest.as_str());
    r.append(":");
    r.append(decimal(o.line).as_str());
    r.append(section_text(o.section.as_str()).as_str());
    r.append(since_text(o).as_str());
    r.append(" and ");
    r.append(imported_text(o, scope).as_str());
    r.append(mention_text(&o.doc_mention).as_str());
    r.append(silenced_text(&o.lint_silenced).as_str());
    r.append(" - wire it or drop it");
    r
}

fn copy_pair(p: &Option<(String, String)>) -> (r: Option<(String, String)>)
    ensures
        r.deep_view() == p.deep_view(),
{
    match p {
        Some(x) => Some((x.0.clone(), x.1.clone())),
        None => None,
    }
}

fn copy_triple(p: &Option<(String, String, String)>) -> (r: Option<(String, String, String)>)
    ensures
        r.deep_view() == p.deep_view(),
{
    match p {
        Some(x) => Some((x.0.clone(), x.1.clone(), x.2.clone())),
        None => None,
    }
}

/// An orphan with what history says of it, and its line.
pub fn settle_orphan(o: &Orphan, a: Option<&Answer>, head: i64, scope: &str) -> (r: Orphan)
    ensures
        r.deep_view() == settled_orphan(
            o.deep_view(),
            match a {
                Some(x) => Some(x.deep_view()),
                None => None,
            },
            head,
            scope@,
        ),
{
    let mut r = Orphan {
        manifest: o.manifest.clone(),
        name: o.name.clone(),
        ident: o.ident.clone(),
        line: o.line,
        section: o.section.clone(),
        optional: o.optional,
        gated_by: copy_list(&o.gated_by),
        birth: copy_pair(&o.birth),
        age_days: o.age_days,
        commits_since: o.commits_since,
        ever_imported: copy_triple(&o.ever_imported),
        doc_mention: copy_place(&o.doc_mention),
        lint_silenced: copy_place(&o.lint_silenced),
        line_text: o.line_text.clone(),
    };
    if let Some(x) = a {
        match &x.birth {
            Some(b) => {
                r.birth = Some((b.0.clone(), b.1.clone()));
                r.age_days = Some(age_in_days(b.2, head));
            },
            None => {
                r.birth = None;
                r.age_days = None;
            },
        }
        r.commits_since = x.since;
        r.ever_imported = copy_triple(&x.ever);
    }
    let line = line_of_orphan(&r, scope);
    r.line_text = line;
    r
}

/// `a (Cargo.toml:3)` of gated dependencies.
pub open spec fn gate_texts(manifest: Chars, gates: Seq<(Chars, usize)>) -> Seq<Chars> {
    Seq::new(gates.len(), |k: int| gates[k].0 + " ("@ + manifest + ":"@ + digits(gates[k].1 as nat) + ")"@)
}

/// What a feature gates.
pub open spec fn gates_clause(f: FeatureView) -> Chars {
    if f.gates.len() == 0 {
        if f.dead_siblings.len() == 0 {
            "gates no dependency"@
        } else {
            "enables only the dead "@ + (if f.dead_siblings.len() == 1 {
                "feature"@
            } else {
                "features"@
            }) + " "@ + listed(f.dead_siblings)
        }
    } else {
        "gates optional "@ + (if f.gates.len() == 1 {
            "dep"@
        } else {
            "deps"@
        }) + " "@ + listed(gate_texts(f.manifest, f.gates))
    }
}

/// How a feature lost its last consumer.
pub open spec fn consumed_clause(removed: Option<(Chars, Chars)>) -> Chars {
    match removed {
        Some((h, d)) => "its last consumer was removed in "@ + h + " ("@ + d + ")"@,
        None => "never consumed"@,
    }
}

/// A list after a lead, where there is one.
pub open spec fn listing_clause(lead: Chars, list: Seq<Chars>) -> Chars {
    if list.len() == 0 {
        Seq::empty()
    } else {
        lead + listed(list)
    }
}

/// The last sentence of a comment, at most 120 characters of it.
pub open spec fn last_sentence(t: Chars) -> Chars {
    let s = trimmed(stripped_end(after_last(t, ". "@), "."@));
    if s.len() > 120 {
        s.take(120)
    } else {
        s
    }
}

/// What the comment above a feature says.
pub open spec fn comment_clause(manifest: Chars, c: Option<(usize, usize, Chars)>) -> Chars {
    match c {
        Some((a, b, t)) => "; the comment at "@ + manifest + ":"@ + line_range(a, b) + " says '"@ + last_sentence(t) + "'"@,
        None => Seq::empty(),
    }
}

/// Some element forwards.
pub open spec fn forwards(elements: Seq<Chars>) -> bool {
    exists|k: int| 0 <= k < elements.len() && (#[trigger] elements[k]).contains('/')
}

/// The line of a feature.
pub open spec fn feature_line(f: FeatureView, scope: Chars) -> Chars {
    let start = "feature "@ + f.name + " ("@ + f.manifest + ":"@ + digits(f.line as nat);
    let ci = listing_clause("; consumed only by CI: "@, f.ci_files);
    let comment = comment_clause(f.manifest, f.comment);
    let enabled = listing_clause("; enabled by "@, f.enabled_by);
    match f.state {
        FeatureState::Dead => start + ") "@ + gates_clause(f) + " and nothing in "@ + scope + " checks cfg(feature = \""@
            + f.name + "\"); "@ + consumed_clause(f.removed_in) + ci + comment + enabled,
        FeatureState::Noop => start + ") = [] has no consumer: a no-op"@ + ci + comment,
        FeatureState::Alive => start + ") alive: "@ + plural_of(f.consumers as nat, "consumer"@, "consumers"@) + " "@ + (
        if forwards(f.elements) {
            "(forwards)"@
        } else {
            ""@
        }) + enabled,
    }
}

/// A feature with what history says of it, and its line.
pub open spec fn settled_feature(f: FeatureView, a: Option<AnswerView>, scope: Chars) -> FeatureView {
    let told = FeatureView {
        removed_in: match a {
            Some(x) => x.removed,
            None => f.removed_in,
        },
        ..f
    };
    FeatureView { line_text: feature_line(told, scope), ..told }
}

fn gates_text(f: &Feature) -> (r: String)
    ensures
        r@ == gates_clause(f.deep_view()),
{
    let ghost gv = f.gates.deep_view();
    assert(gv.len() == f.gates.len());
    assert(f.dead_siblings.len() == f.dead_siblings.deep_view().len());
    if f.gates.len() == 0 {
        if f.dead_siblings.len() == 0 {
            return "gates no dependency".to_owned();
        }
        let mut r = "enables only the dead ".to_owned();
        r.append(
            if f.dead_siblings.len() == 1 {
                "feature"
            } else {
                "features"
            },
        );
        r.append(" ");
        r.append(join_and(&f.dead_siblings).as_str());
        return r;
    }
    let ghost want = gate_texts(f.manifest@, gv);
    let mut list: Vec<String> = Vec::new();
    let mut k: usize = 0;
    while k < f.gates.len()
        invariant
            k <= f.gates.len(),
            gv == f.gates.deep_view(),
            want == gate_texts(f.manifest@, gv),
            list.len() == k,
            forall|j: int| 0 <= j < k ==> (#[trigger] list@[j])@ == want[j],
        decreases f.gates.len() - k,
    {
        assert(gv[k as int] == f.gates@[k as int].deep_view());
        let mut x = f.gates[k].0.clone();
        x.append(" (");
        x.append(f.manifest.as_str());
        x.append(":");
        x.append(decimal(f.gates[k].1).as_str());
        x.append(")");
        list.push(x);
        k = k + 1;
    }
    assert(list.deep_view() =~= want);
    let mut r = "gates optional ".to_owned();
    r.append(
        if f.gates.len() == 1 {
            "dep"
        } else {
            "deps"
        },
    );
    r.append(" ");
    r.append(join_and(&list).as_str());
    r
}

fn consumed_text(removed: &Option<(String, String)>) -> (r: String)
    ensures
        r@ == consumed_clause(removed.deep_view()),
{
    match removed {
        Some(x) => {
            let mut r = "its last consumer was removed in ".to_owned();
            r.append(x.0.as_str());
            r.append(" (");
            r.append(x.1.as_str());
            r.append(")");
            r
        },
        None => "never consumed".to_owned(),
    }
}

fn listing_text(lead: &str, list: &Vec<String>) -> (r: String)
    ensures
        r@ == listing_clause(lead@, list.deep_view()),
{
    assert(list.len() == list.deep_view().len());
    if list.len() == 0 {
        no_text()
    } else {
        plus(lead.to_owned(), join_and(list).as_str())
    }
}

fn sentence(t: &str) -> (r: String)
    ensures
        r@ == last_sentence(t@),
{
    let s = trim(strip_end(last_piece(t, ". ").as_str(), ".").as_str());
    let v = chars(s.as_str());
    if v.len() > 120 {
        assert(s@.take(120) =~= s@.subrange(0, 120));
        slice(&v, 0, 120)
    } else {
        s
    }
}

fn comment_text(manifest: &str, c: &Option<(usize, usize, String)>) -> (r: String)
    ensures
        r@ == comment_clause(manifest@, c.deep_view()),
{
    match c {
        Some(x) => {
            let mut r = "; the comment at ".to_owned();
            r.append(manifest);
            r.append(":");
            r.append(range_text(x.0, x.1).as_str());
            r.append(" says '");
            r.append(sentence(x.2.as_str()).as_str());
            r.append("'");
            r
        },
        None => no_text(),
    }
}

fn is_forwarding(elements: &Vec<String>) -> (r: bool)
    ensures
        r == forwards(elements.deep_view()),
{
    let ghost view = elements.deep_view();
    let mut k: usize = 0;
    while k < elements.len()
        invariant
            k <= elements.len(),
            view == elements.deep_view(),
            forall|j: int| 0 <= j < k ==> !(#[trigger] view[j]).contains('/'),
        decreases elements.len() - k,
    {
        assert(view[k as int] == elements@[k as int]@);
        if has_char(elements[k].as_str(), '/') {
            assert(view[k as int].contains('/'));
            return true;
        }
        k = k + 1;
    }
    false
}

fn line_of_feature(f: &Feature, scope: &str) -> (r: String)
    ensures
        r@ == feature_line(f.deep_view(), scope@),
{
    let ci = listing_text("; consumed only by CI: ", &f.ci_files);
    let comment = comment_text(f.manifest.as_str(), &f.comment);
    let enabled = listing_text("; enabled by ", &f.enabled_by);
    let mut r = "feature ".to_owned();
    r.append(f.name.as_str());
    r.append(" (");
    r.append(f.manifest.as_str());
    r.append(":");
    r.append(decimal(f.line).as_str());
    match f.state {
        FeatureState::Dead => {
            r.append(") ");
            r.append(gates_text(f).as_str());
            r.append(" and nothing in ");
            r.append(scope);
            r.append(" checks cfg(feature = \"");
            r.append(f.name.as_str());
            r.append("\"); ");
            r.append(consumed_text(&f.removed_in).as_str());
            r.append(ci.as_str());
            r.append(comment.as_str());
            r.append(enabled.as_str());
        },
        FeatureState::Noop => {
            r.append(") = [] has no consumer: a no-op");
            r.append(ci.as_str());
            r.append(comment.as_str());
        },
        FeatureState::Alive => {
            r.append(") alive: ");
            r.append(plural(f.consumers, "consumer", "consumers").as_str());
            r.append(" ");
            r.append(
                if is_forwarding(&f.elements) {
                    "(forwards)"
                } else {
                    ""
                },
            );
            r.append(enabled.as_str());
        },
    }
    r
}

fn copy_gates(list: &Vec<(String, usize)>) -> (out: Vec<(String, usize)>)
    ensures
        out.deep_view() == list.deep_view(),
{
    let ghost view = list.deep_view();
    let mut out: Vec<(String, usize)> = Vec::new();
    let mut k: usize = 0;
    while k < list.len()
        invariant
            k <= list.len(),
            view == list.deep_view(),
            out.len() == k,
            forall|j: int| 0 <= j < k ==> (#[trigger] out@[j]).deep_view() == view[j],
        decreases list.len() - k,
    {
        assert(view[k as int] == list@[k as int].deep_view());
        out.push((list[k].0.clone(), list[k].1));
        k = k + 1;
    }
    assert(out.deep_view() =~= view);
    out
}

/// A copy of a feature.
pub fn copy_feature(f: &Feature) -> (r: Feature)
    ensures
        r.deep_view() == f.deep_view(),
{
    Feature {
        manifest: f.manifest.clone(),
        name: f.name.clone(),
        line: f.line,
        elements: copy_list(&f.elements),
        consumers: f.consumers,
        ci_files: copy_list(&f.ci_files),
        state: f.state,
        gates: copy_gates(&f.gates),
        dead_siblings: copy_list(&f.dead_siblings),
        removed_in: copy_pair(&f.removed_in),
        enabled_by: copy_list(&f.enabled_by),
        comment: copy_comment(&f.comment),
        line_text: f.line_text.clone(),
    }
}

/// A feature with what history says of it, and its line.
pub fn settle_feature(f: &Feature, a: Option<&Answer>, scope: &str) -> (r: Feature)
    ensures
        r.deep_view() == settled_feature(
            f.deep_view(),
            match a {
                Some(x) => Some(x.deep_view()),
                None => None,
            },
            scope@,
        ),
{
    let mut r = copy_feature(f);
    if let Some(x) = a {
        r.removed_in = copy_pair(&x.removed);
    }
    let line = line_of_feature(&r, scope);
    r.line_text = line;
    r
}

} // verus!
