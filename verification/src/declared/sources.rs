//! The manifests, docs and CI files a pass reads, and the pass over them.

use vstd::prelude::*;

use crate::config::Declared;
use crate::declared::history::{History, Lookup};
use crate::declared::manifest::{declares, parse_cargo, Manifest, ManifestView};
use crate::declared::orphans::{Pass, PassView};
use crate::declared::report::{
    empty_report, pass_of, report, report_of, survey, survey_of, DeclaredReport, ReportView,
};
use crate::declared::scope::{scopes, test_files};
use crate::declared::side::{FileSide, SideView};
use crate::docs::toml_parsed;
use crate::globs::{glob_hit, glob_match, glob_set, kept_globs, set_globs};
use crate::order::{sort_texts, sorted_texts};
use crate::text::{before, copy_list, decimal, digits, ends, ends_with, extend, less, plus, put, Chars};

verus! {

/// One file besides the sources: its repo-relative path, and its text where it could be read.
pub struct AuxFile {
    pub path: String,
    pub text: Option<String>,
}

/// An [`AuxFile`] by its contents.
pub struct AuxView {
    pub path: Chars,
    pub text: Option<Chars>,
}

impl DeepView for AuxFile {
    type V = AuxView;

    open spec fn deep_view(&self) -> AuxView {
        AuxView { path: self.path@, text: self.text.deep_view() }
    }
}

/// Files of more bytes are not read.
pub const MAX_BYTES: u64 = 4194304;

/// A file of this size is read.
pub fn is_read(bytes: u64) -> (r: bool)
    ensures
        r == (bytes <= MAX_BYTES),
{
    bytes <= MAX_BYTES
}

/// Every glob of the settings that names a file to read.
pub open spec fn union_globs(cfg: Declared) -> Seq<Chars> {
    cfg.manifest_globs.deep_view() + cfg.doc_globs.deep_view() + cfg.feature_ci_globs.deep_view()
        + cfg.public_doc_globs.deep_view()
}

/// The paths that globs match.
pub open spec fn hits(globs: Seq<Chars>, list: Seq<Chars>) -> Seq<Chars>
    decreases list.len(),
{
    if list.len() == 0 {
        Seq::empty()
    } else if glob_hit(globs, list.last()) {
        hits(globs, list.drop_last()).push(list.last())
    } else {
        hits(globs, list.drop_last())
    }
}

/// The paths of `list` that the settings name, in order.
pub fn aux_paths(list: &Vec<String>, cfg: &Declared) -> (out: Vec<String>)
    ensures
        out.deep_view() == sorted_texts(hits(union_globs(*cfg), list.deep_view())),
{
    let mut globs = copy_list(&cfg.manifest_globs);
    extend(&mut globs, &cfg.doc_globs);
    extend(&mut globs, &cfg.feature_ci_globs);
    extend(&mut globs, &cfg.public_doc_globs);
    let set = glob_set(&globs);
    let ghost view = list.deep_view();
    let mut out: Vec<String> = Vec::new();
    assert(out.deep_view() =~= Seq::<Chars>::empty());
    assert(view.take(0) =~= Seq::<Chars>::empty());
    let mut k: usize = 0;
    while k < list.len()
        invariant
            k <= list.len(),
            view == list.deep_view(),
            set_globs(set) == kept_globs(union_globs(*cfg)),
            out.deep_view() == hits(union_globs(*cfg), view.take(k as int)),
        decreases list.len() - k,
    {
        assert(view.take(k + 1).drop_last() =~= view.take(k as int));
        assert(view[k as int] == list@[k as int]@);
        if glob_match(&set, list[k].as_str()) {
            put(&mut out, list[k].clone());
        }
        k = k + 1;
    }
    assert(view.take(view.len() as int) =~= view);
    sort_texts(&out)
}

// ---------- manifests ----------

/// The file is a manifest.
pub open spec fn is_manifest(f: AuxView, cfg: Declared) -> bool {
    glob_hit(cfg.manifest_globs.deep_view(), f.path)
}

/// The file is a Cargo manifest.
pub open spec fn is_cargo(f: AuxView, cfg: Declared) -> bool {
    is_manifest(f, cfg) && ends(f.path, "Cargo.toml"@)
}

/// The file was read and is TOML.
pub open spec fn parses(f: AuxView) -> bool {
    f.text matches Some(t) && toml_parsed(t) is Some
}

/// How many files are manifests of other kinds.
pub open spec fn others_in(files: Seq<AuxView>, cfg: Declared) -> nat
    decreases files.len(),
{
    if files.len() == 0 {
        0
    } else {
        others_in(files.drop_last(), cfg) + (if is_manifest(files.last(), cfg) && !is_cargo(files.last(), cfg) {
            1nat
        } else {
            0nat
        })
    }
}

/// A note for each Cargo manifest that is no TOML.
pub open spec fn bad_notes(files: Seq<AuxView>, cfg: Declared) -> Seq<Chars>
    decreases files.len(),
{
    if files.len() == 0 {
        Seq::empty()
    } else {
        let before = bad_notes(files.drop_last(), cfg);
        if is_cargo(files.last(), cfg) && !parses(files.last()) {
            before.push(files.last().path + " did not parse as TOML; skipped"@)
        } else {
            before
        }
    }
}

/// One manifest for each Cargo manifest that is TOML, in order.
pub open spec fn manifests_in(list: Seq<ManifestView>, files: Seq<AuxView>, cfg: Declared) -> bool
    decreases files.len(),
{
    if files.len() == 0 {
        list.len() == 0
    } else if is_cargo(files.last(), cfg) && parses(files.last()) {
        list.len() > 0 && declares(list.last(), files.last().path, files.last().text->0) && manifests_in(
            list.drop_last(),
            files.drop_last(),
            cfg,
        )
    } else {
        manifests_in(list, files.drop_last(), cfg)
    }
}

/// The first place, from `k` on, of a manifest whose path comes after `path`.
pub open spec fn slot(list: Seq<ManifestView>, path: Chars, k: int) -> int
    decreases list.len() - k,
{
    if k < 0 || k >= list.len() {
        k
    } else if before(path, list[k].path) {
        k
    } else {
        slot(list, path, k + 1)
    }
}

/// Manifests in the order of their paths; of equal paths the earlier one first.
pub open spec fn by_path(list: Seq<ManifestView>) -> Seq<ManifestView>
    decreases list.len(),
{
    if list.len() == 0 {
        Seq::empty()
    } else {
        let sorted = by_path(list.drop_last());
        sorted.insert(slot(sorted, list.last().path, 0), list.last())
    }
}

/// The notes before anything is checked.
pub open spec fn first_notes(files: Seq<AuxView>, cfg: Declared) -> Seq<Chars> {
    let n = others_in(files, cfg);
    let bad = bad_notes(files, cfg);
    if n > 0 {
        bad.push(
            digits(n) + " package.json / pyproject.toml "@ + (if n == 1 {
                "manifest"@
            } else {
                "manifests"@
            }) + " found; only Cargo.toml is parsed in this version"@,
        )
    } else {
        bad
    }
}

/// The texts of the files that `globs` match and that are no manifests, each with its path.
pub open spec fn texts_in(files: Seq<AuxView>, globs: Seq<Chars>, cfg: Declared) -> Seq<(Chars, Chars)>
    decreases files.len(),
{
    if files.len() == 0 {
        Seq::empty()
    } else {
        let before = texts_in(files.drop_last(), globs, cfg);
        let f = files.last();
        match f.text {
            Some(t) => if !is_manifest(f, cfg) && glob_hit(globs, f.path) {
                before.push((f.path, t))
            } else {
                before
            },
            None => before,
        }
    }
}

fn place(ms: &Vec<Manifest>, path: &str) -> (k: usize)
    ensures
        k as int == slot(ms.deep_view(), path@, 0),
        k <= ms.len(),
{
    let ghost view = ms.deep_view();
    let mut k: usize = 0;
    while k < ms.len()
        invariant
            k <= ms.len(),
            view == ms.deep_view(),
            slot(view, path@, 0) == slot(view, path@, k as int),
        decreases ms.len() - k,
    {
        assert(view[k as int] == ms@[k as int].deep_view());
        if less(path, ms[k].path.as_str()) {
            return k;
        }
        k = k + 1;
    }
    k
}

/// What a pass reads besides the sides.
pub struct Sources {
    /// By path.
    pub manifests: Vec<Manifest>,
    /// Manifests of other kinds.
    pub other: usize,
    pub notes: Vec<String>,
    pub docs: Vec<(String, String)>,
    pub ci: Vec<(String, String)>,
    /// Docs users read.
    pub public: Vec<(String, String)>,
}

impl Sources {
    /// They are those of the files, with `list` the manifests in the order they were read.
    pub open spec fn of(&self, list: Seq<ManifestView>, files: Seq<AuxView>, cfg: Declared) -> bool {
        &&& manifests_in(list, files, cfg)
        &&& self.manifests.deep_view() == by_path(list)
        &&& self.other == others_in(files, cfg)
        &&& self.notes.deep_view() == first_notes(files, cfg)
        &&& self.docs.deep_view() == texts_in(files, cfg.doc_globs.deep_view(), cfg)
        &&& self.ci.deep_view() == texts_in(files, cfg.feature_ci_globs.deep_view(), cfg)
        &&& self.public.deep_view() == texts_in(files, cfg.public_doc_globs.deep_view(), cfg)
    }
}

fn texts(files: &Vec<AuxFile>, globs: &Vec<String>, manifests: &globset::GlobSet, cfg: &Declared) -> (out: Vec<
    (String, String),
>)
    requires
        set_globs(*manifests) == kept_globs(cfg.manifest_globs.deep_view()),
    ensures
        out.deep_view() == texts_in(files.deep_view(), globs.deep_view(), *cfg),
{
    let set = glob_set(globs);
    let ghost view = files.deep_view();
    let mut out: Vec<(String, String)> = Vec::new();
    assert(out.deep_view() =~= Seq::<(Chars, Chars)>::empty());
    assert(view.take(0) =~= Seq::<AuxView>::empty());
    let mut k: usize = 0;
    while k < files.len()
        invariant
            k <= files.len(),
            view == files.deep_view(),
            set_globs(*manifests) == kept_globs(cfg.manifest_globs.deep_view()),
            set_globs(set) == kept_globs(globs.deep_view()),
            out.deep_view() == texts_in(view.take(k as int), globs.deep_view(), *cfg),
        decreases files.len() - k,
    {
        assert(view.take(k + 1).drop_last() =~= view.take(k as int));
        let f = &files[k];
        assert(view[k as int] == f.deep_view());
        if let Some(t) = &f.text {
            if !glob_match(manifests, f.path.as_str()) && glob_match(&set, f.path.as_str()) {
                put(&mut out, (f.path.clone(), t.clone()));
            }
        }
        k = k + 1;
    }
    assert(view.take(view.len() as int) =~= view);
    out
}

/// Read the manifests among the files, and sort the others by what they are for.
pub fn gather(files: &Vec<AuxFile>, cfg: &Declared) -> (r: Sources)
    ensures
        exists|list: Seq<ManifestView>| r.of(list, files.deep_view(), *cfg),
{
    let set = glob_set(&cfg.manifest_globs);
    let ghost view = files.deep_view();
    let ghost mut list: Seq<ManifestView> = Seq::empty();
    let mut manifests: Vec<Manifest> = Vec::new();
    let mut other: usize = 0;
    let mut notes: Vec<String> = Vec::new();
    assert(manifests.deep_view() =~= Seq::<ManifestView>::empty());
    assert(notes.deep_view() =~= Seq::<Chars>::empty());
    assert(view.take(0) =~= Seq::<AuxView>::empty());
    let mut k: usize = 0;
    while k < files.len()
        invariant
            k <= files.len(),
            other <= k,
            view == files.deep_view(),
            set_globs(set) == kept_globs(cfg.manifest_globs.deep_view()),
            manifests_in(list, view.take(k as int), *cfg),
            manifests.deep_view() == by_path(list),
            other == others_in(view.take(k as int), *cfg),
            notes.deep_view() == bad_notes(view.take(k as int), *cfg),
        decreases files.len() - k,
    {
        assert(view.take(k + 1).drop_last() =~= view.take(k as int));
        let f = &files[k];
        assert(view[k as int] == f.deep_view());
        if glob_match(&set, f.path.as_str()) {
            if !ends_with(f.path.as_str(), "Cargo.toml") {
                other = other + 1;
            } else {
                let parsed = match &f.text {
                    Some(t) => parse_cargo(f.path.as_str(), t.as_str()),
                    None => None,
                };
                match parsed {
                    Some(m) => {
                        let ghost mv = m.deep_view();
                        let ghost was = manifests.deep_view();
                        let at: usize = place(&manifests, m.path.as_str());
                        manifests.insert(at, m);
                        assert(manifests.deep_view() =~= was.insert(at as int, mv));
                        proof {
                            let longer = list.push(mv);
                            assert(longer.drop_last() =~= list);
                            list = longer;
                        }
                    },
                    None => {
                        put(&mut notes, plus(f.path.clone(), " did not parse as TOML; skipped"));
                    },
                }
            }
        }
        k = k + 1;
    }
    assert(view.take(view.len() as int) =~= view);
    if other > 0 {
        let mut o = decimal(other);
        o.append(" package.json / pyproject.toml ");
        o.append(
            if other == 1 {
                "manifest"
            } else {
                "manifests"
            },
        );
        o.append(" found; only Cargo.toml is parsed in this version");
        put(&mut notes, o);
    }
    let docs = texts(files, &cfg.doc_globs, &set, cfg);
    let ci = texts(files, &cfg.feature_ci_globs, &set, cfg);
    let public = texts(files, &cfg.public_doc_globs, &set, cfg);
    let r = Sources { manifests, other, notes, docs, ci, public };
    assert(r.of(list, view, *cfg));
    r
}

// ---------- the pass ----------

/// The pass over sides and files whose manifests are `list`.
pub open spec fn pass_on(list: Seq<ManifestView>, sides: Seq<SideView>, files: Seq<AuxView>, cfg: Declared) -> PassView {
    pass_of(sides, by_path(list), texts_in(files, cfg.doc_globs.deep_view(), cfg), cfg)
}

/// The report on sides and files whose manifests are `list`.
pub open spec fn outcome(
    list: Seq<ManifestView>,
    sides: Seq<SideView>,
    files: Seq<AuxView>,
    cfg: Declared,
    h: Option<crate::declared::history::HistoryView>,
) -> ReportView {
    let other = others_in(files, cfg) as usize;
    let notes = first_notes(files, cfg);
    if list.len() == 0 {
        empty_report(other, notes)
    } else {
        report_of(
            pass_on(list, sides, files, cfg),
            texts_in(files, cfg.feature_ci_globs.deep_view(), cfg),
            texts_in(files, cfg.public_doc_globs.deep_view(), cfg),
            h,
            other,
            notes,
        )
    }
}

proof fn by_path_keeps(list: Seq<ManifestView>)
    ensures
        by_path(list).len() == list.len(),
    decreases list.len(),
{
    if list.len() > 0 {
        by_path_keeps(list.drop_last());
        slot_bounds(by_path(list.drop_last()), list.last().path, 0);
    }
}

proof fn slot_bounds(list: Seq<ManifestView>, path: Chars, k: int)
    requires
        0 <= k <= list.len(),
    ensures
        k <= slot(list, path, k) <= list.len(),
    decreases list.len() - k,
{
    if k < list.len() && !before(path, list[k].path) {
        slot_bounds(list, path, k + 1);
    }
}

/// The questions a pass has for history, in the order its answers are wanted.
pub fn questions(sides: &Vec<FileSide>, files: &Vec<AuxFile>, cfg: &Declared) -> (out: Vec<Lookup>)
    ensures
        exists|list: Seq<ManifestView>|
            #![trigger manifests_in(list, files.deep_view(), *cfg)]
            manifests_in(list, files.deep_view(), *cfg) && out.deep_view() == survey_of(
                pass_on(list, sides.deep_view(), files.deep_view(), *cfg),
                texts_in(files.deep_view(), cfg.feature_ci_globs.deep_view(), *cfg),
            ).work,
{
    let src = gather(files, cfg);
    let ghost list = choose|list: Seq<ManifestView>| src.of(list, files.deep_view(), *cfg);
    let tests = test_files(sides);
    let scope = scopes(&src.manifests, sides);
    let effect = glob_set(&cfg.side_effect_deps);
    let p = Pass {
        sides,
        tests: &tests,
        manifests: &src.manifests,
        scope: &scope,
        docs: &src.docs,
        side_effect: &effect,
        cfg,
    };
    assert(sides.len() == sides.deep_view().len());
    assert(p@ == pass_on(list, sides.deep_view(), files.deep_view(), *cfg));
    let s = survey(&p, &src.ci);
    assert(manifests_in(list, files.deep_view(), *cfg));
    s.work
}

/// The pass. `history` holds the answers to the [`questions`], where the root is a checkout and
/// history is asked.
pub fn analyze(sides: &Vec<FileSide>, files: &Vec<AuxFile>, history: &Option<History>, cfg: &Declared) -> (r: DeclaredReport)
    ensures
        exists|list: Seq<ManifestView>|
            #![trigger manifests_in(list, files.deep_view(), *cfg)]
            manifests_in(list, files.deep_view(), *cfg) && r.deep_view() == outcome(
                list,
                sides.deep_view(),
                files.deep_view(),
                *cfg,
                history.deep_view(),
            ),
{
    let src = gather(files, cfg);
    let ghost list = choose|list: Seq<ManifestView>| src.of(list, files.deep_view(), *cfg);
    assert(manifests_in(list, files.deep_view(), *cfg));
    proof {
        by_path_keeps(list);
    }
    assert(src.manifests.len() == src.manifests.deep_view().len());
    if src.manifests.len() == 0 {
        return DeclaredReport::empty(src.other, src.notes);
    }
    let tests = test_files(sides);
    let scope = scopes(&src.manifests, sides);
    let effect = glob_set(&cfg.side_effect_deps);
    let p = Pass {
        sides,
        tests: &tests,
        manifests: &src.manifests,
        scope: &scope,
        docs: &src.docs,
        side_effect: &effect,
        cfg,
    };
    assert(sides.len() == sides.deep_view().len());
    assert(p@ == pass_on(list, sides.deep_view(), files.deep_view(), *cfg));
    report(&p, &src.ci, &src.public, history, src.other, &src.notes)
}

} // verus!
