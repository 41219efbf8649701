//! Manifests, and what they say of a file: library or application, API root, entrypoint.

use vstd::prelude::*;

use crate::config::{Dead, DeadMode};
use crate::dead::index::SymbolIndex;
use crate::discover::{dir, dir_of};
use crate::docs::{all_strings, elements, json_parsed, read_json, read_toml, root_of, string_at, toml_parsed, under};
use crate::globs::{glob_match, glob_set, hit_by, kept_globs, set_globs};
use crate::lang::Language;
use crate::order::{dedup_texts, deduped, sort_texts, sorted_texts};
use crate::paths::{dir_is_shorter, dirs_above, join_dir, joined_path};
use crate::text::{
    copy_list, plus, put, same, strip_prefix, strip_suffix, trim_leading, without_leading, without_prefix,
    without_suffix, Chars,
};
use crate::tree::{Nodes, SyntaxTree};

verus! {

/// Languages that share a manifest.
#[derive(Debug, Clone, Copy, PartialEq, Eq, Structural)]
pub enum Family {
    Rust,
    Python,
    TypeScript,
}

/// The family of a language.
pub open spec fn family_of(lang: Language) -> Family {
    match lang {
        Language::Rust => Family::Rust,
        Language::Python => Family::Python,
        _ => Family::TypeScript,
    }
}

/// The family of a language.
pub fn family(lang: Language) -> (r: Family)
    ensures
        r == family_of(lang),
{
    match lang {
        Language::Rust => Family::Rust,
        Language::Python => Family::Python,
        _ => Family::TypeScript,
    }
}

/// How a family is written in the settings.
pub open spec fn family_text(f: Family) -> Chars {
    match f {
        Family::Rust => "rust"@,
        Family::Python => "python"@,
        Family::TypeScript => "typescript"@,
    }
}

/// How a family is written in the settings.
pub fn family_name(f: Family) -> (r: &'static str)
    ensures
        r@ == family_text(f),
{
    match f {
        Family::Rust => "rust",
        Family::Python => "python",
        Family::TypeScript => "typescript",
    }
}

/// How a mode prints.
pub open spec fn mode_text(m: DeadMode) -> Chars {
    match m {
        DeadMode::Auto => "auto"@,
        DeadMode::Library => "library"@,
        DeadMode::Application => "application"@,
    }
}

/// How a mode prints.
pub fn mode_name(m: DeadMode) -> (r: &'static str)
    ensures
        r@ == mode_text(m),
{
    match m {
        DeadMode::Auto => "auto",
        DeadMode::Library => "library",
        DeadMode::Application => "application",
    }
}

// ---------- package.json targets ----------

/// A target without its leading `./`, built files mapped to their sources.
pub open spec fn source_of(s: Chars) -> Chars {
    let s = without_leading(s, "./"@);
    match without_prefix(s, "dist/"@) {
        Some(r) => "src/"@ + r,
        None => s,
    }
}

/// A built file without its extension.
pub open spec fn built_stem(s: Chars) -> Option<Chars> {
    match without_suffix(s, ".js"@) {
        Some(st) => Some(st),
        None => match without_suffix(s, ".mjs"@) {
            Some(st) => Some(st),
            None => match without_suffix(s, ".cjs"@) {
                Some(st) => Some(st),
                None => without_suffix(s, ".d.ts"@),
            },
        },
    }
}

/// The source files one target stands for; a wildcard stays a glob.
pub open spec fn targets_of(s: Chars) -> Seq<Chars> {
    let src = source_of(s);
    match built_stem(src) {
        Some(st) => seq![st + ".ts"@, st + ".tsx"@, st + ".mts"@, st + ".js"@],
        None => seq![src],
    }
}

/// The source files of a list of targets.
pub open spec fn targets_in(list: Seq<Chars>) -> Seq<Chars>
    decreases list.len(),
{
    if list.len() == 0 {
        Seq::empty()
    } else {
        targets_in(list.drop_last()) + targets_of(list.last())
    }
}

fn source(s: &str) -> (r: String)
    ensures
        r@ == source_of(s@),
{
    let s = trim_leading(s, "./");
    match strip_prefix(s.as_str(), "dist/") {
        Some(r) => plus("src/".to_owned(), r.as_str()),
        None => s,
    }
}

fn stem(s: &str) -> (r: Option<String>)
    ensures
        r.deep_view() == built_stem(s@),
{
    match strip_suffix(s, ".js") {
        Some(st) => Some(st),
        None => match strip_suffix(s, ".mjs") {
            Some(st) => Some(st),
            None => match strip_suffix(s, ".cjs") {
                Some(st) => Some(st),
                None => strip_suffix(s, ".d.ts"),
            },
        },
    }
}

/// Resolve `exports`-style values of a package.json: strings anywhere under `at`, `./dist/x.js`
/// remapped to `src/x.ts`; wildcards stay globs.
pub fn package_targets(doc: &SyntaxTree, at: usize, out: &mut Vec<String>)
    requires
        doc.ok(),
        at < doc@.len(),
    ensures
        final(out).deep_view() == old(out).deep_view() + targets_in(all_strings(doc@, at)),
{
    let list = doc.all_strings(at);
    let ghost view = list.deep_view();
    let mut k: usize = 0;
    assert(view.take(0) =~= Seq::<Chars>::empty());
    assert(old(out).deep_view() + Seq::<Chars>::empty() =~= old(out).deep_view());
    while k < list.len()
        invariant
            k <= list.len(),
            view == list.deep_view(),
            out.deep_view() == old(out).deep_view() + targets_in(view.take(k as int)),
        decreases list.len() - k,
    {
        assert(view.take(k + 1).drop_last() =~= view.take(k as int));
        assert(view[k as int] == list@[k as int]@);
        let ghost was = out.deep_view();
        let src = source(list[k].as_str());
        match stem(src.as_str()) {
            Some(st) => {
                put(out, plus(st.clone(), ".ts"));
                put(out, plus(st.clone(), ".tsx"));
                put(out, plus(st.clone(), ".mts"));
                put(out, plus(st, ".js"));
            },
            None => put(out, src),
        }
        assert(out.deep_view() =~= was + targets_of(view[k as int]));
        assert(out.deep_view() =~= old(out).deep_view() + (targets_in(view.take(k as int)) + targets_of(
            view[k as int],
        )));
        k = k + 1;
    }
    assert(view.take(view.len() as int) =~= view);
}

// ---------- one manifest ----------

/// What the disk says beside a manifest.
#[derive(Clone, Copy)]
pub struct Beside {
    /// `src/main.rs` is a file.
    pub main_file: bool,
    /// `src/bin` is a directory.
    pub bin_dir: bool,
    /// `src/lib.rs` is a file.
    pub lib_file: bool,
}

/// A manifest, as far as the mode and the roots of its files go.
pub struct Manifest {
    /// Repo-relative directory holding it (`""` at the root).
    pub dir: String,
    pub mode: DeadMode,
    /// What decided the mode.
    pub why: String,
    pub api_roots: globset::GlobSet,
    pub entrypoints: globset::GlobSet,
}

/// A [`Manifest`] by its contents.
pub struct ManifestView {
    pub dir: Chars,
    pub mode: DeadMode,
    pub why: Chars,
    pub api_roots: Seq<Chars>,
    pub entrypoints: Seq<Chars>,
}

impl DeepView for Manifest {
    type V = ManifestView;

    open spec fn deep_view(&self) -> ManifestView {
        ManifestView {
            dir: self.dir@,
            mode: self.mode,
            why: self.why@,
            api_roots: set_globs(self.api_roots),
            entrypoints: set_globs(self.entrypoints),
        }
    }
}

/// The paths the elements of `kids` name, without a leading `./`.
pub open spec fn paths_in(t: Nodes, kids: Seq<usize>) -> Seq<Chars>
    decreases kids.len(),
{
    if kids.len() == 0 {
        Seq::empty()
    } else {
        match string_at(t, under(t, Some(kids.last()), "path"@)) {
            Some(p) => paths_in(t, kids.drop_last()).push(without_leading(p, "./"@)),
            None => paths_in(t, kids.drop_last()),
        }
    }
}

/// What a Cargo.toml says.
pub open spec fn cargo_manifest(t: Nodes, dir: Chars, beside: Beside, cfg: Dead) -> ManifestView {
    let root = root_of(t);
    let bins = elements(t, under(t, root, "bin"@));
    let lib = under(t, root, "lib"@);
    let file = joined_path(dir, "Cargo.toml"@);
    let has_bin = bins.len() > 0 || beside.main_file || beside.bin_dir;
    let has_lib = lib is Some || beside.lib_file;
    ManifestView {
        dir,
        mode: if !has_bin && has_lib {
            DeadMode::Library
        } else {
            DeadMode::Application
        },
        why: if has_bin {
            file + " has "@ + (if bins.len() == 0 {
                "src/main.rs"@
            } else {
                "[[bin]]"@
            })
        } else if has_lib {
            file + " has [lib] and no [[bin]]"@
        } else {
            file + " names no target"@
        },
        api_roots: match string_at(t, under(t, lib, "path"@)) {
            Some(p) => kept_globs(cfg.symbols.api_roots.deep_view().push(without_leading(p, "./"@))),
            None => kept_globs(cfg.symbols.api_roots.deep_view()),
        },
        entrypoints: kept_globs(cfg.symbols.entrypoints.deep_view() + paths_in(t, bins)),
    }
}

/// What a pyproject.toml says.
pub open spec fn python_manifest(t: Nodes, dir: Chars, cfg: Dead) -> ManifestView {
    let scripts = under(t, under(t, root_of(t), "project"@), "scripts"@) is Some;
    let file = joined_path(dir, "pyproject.toml"@);
    ManifestView {
        dir,
        mode: if scripts {
            DeadMode::Application
        } else {
            DeadMode::Library
        },
        why: if scripts {
            file + " has [project.scripts]"@
        } else {
            file + " has no [project.scripts]"@
        },
        api_roots: kept_globs(cfg.symbols.api_roots.deep_view()),
        entrypoints: kept_globs(cfg.symbols.entrypoints.deep_view()),
    }
}

/// The targets under one key of a package.json.
pub open spec fn key_targets(t: Nodes, key: Chars) -> Seq<Chars> {
    match under(t, root_of(t), key) {
        Some(x) => targets_in(all_strings(t, x)),
        None => Seq::empty(),
    }
}

/// What a package.json says.
pub open spec fn package_manifest(t: Nodes, dir: Chars, cfg: Dead) -> ManifestView {
    let exports = under(t, root_of(t), "exports"@) is Some;
    let file = joined_path(dir, "package.json"@);
    ManifestView {
        dir,
        mode: if exports {
            DeadMode::Library
        } else {
            DeadMode::Application
        },
        why: if exports {
            file + " has exports"@
        } else {
            file + " has no exports"@
        },
        api_roots: kept_globs(
            cfg.symbols.api_roots.deep_view() + key_targets(t, "exports"@) + key_targets(t, "main"@) + key_targets(
                t,
                "module"@,
            ) + key_targets(t, "types"@) + key_targets(t, "bin"@),
        ),
        entrypoints: kept_globs(cfg.symbols.entrypoints.deep_view()),
    }
}

/// `m` is what a manifest of a family says, given its document.
pub open spec fn says(t: Nodes, dir: Chars, fam: Family, beside: Beside, cfg: Dead) -> ManifestView {
    match fam {
        Family::Rust => cargo_manifest(t, dir, beside, cfg),
        Family::Python => python_manifest(t, dir, cfg),
        Family::TypeScript => package_manifest(t, dir, cfg),
    }
}

fn add_targets(doc: &SyntaxTree, key: &str, api: &mut Vec<String>)
    requires
        doc.ok(),
    ensures
        final(api).deep_view() == old(api).deep_view() + key_targets(doc@, key@),
{
    match doc.get(doc.root(), key) {
        Some(x) => package_targets(doc, x, api),
        None => {
            assert(old(api).deep_view() + Seq::<Chars>::empty() =~= old(api).deep_view());
        },
    }
}

fn add_paths(doc: &SyntaxTree, kids: &Vec<usize>, out: &mut Vec<String>)
    requires
        doc.ok(),
        forall|k: int| 0 <= k < kids@.len() ==> #[trigger] kids@[k] < doc@.len(),
    ensures
        final(out).deep_view() == old(out).deep_view() + paths_in(doc@, kids@),
{
    let mut k: usize = 0;
    assert(kids@.take(0) =~= Seq::<usize>::empty());
    assert(old(out).deep_view() + Seq::<Chars>::empty() =~= old(out).deep_view());
    while k < kids.len()
        invariant
            k <= kids.len(),
            doc.ok(),
            forall|k: int| 0 <= k < kids@.len() ==> #[trigger] kids@[k] < doc@.len(),
            out.deep_view() == old(out).deep_view() + paths_in(doc@, kids@.take(k as int)),
        decreases kids.len() - k,
    {
        assert(kids@.take(k + 1).drop_last() =~= kids@.take(k as int));
        let ghost was = out.deep_view();
        match doc.string(doc.get(Some(kids[k]), "path")) {
            Some(p) => {
                let p = trim_leading(p.as_str(), "./");
                let ghost v = p@;
                put(out, p);
                assert(was.push(v) =~= old(out).deep_view() + paths_in(doc@, kids@.take(k as int)).push(v));
            },
            None => {},
        }
        k = k + 1;
    }
    assert(kids@.take(kids@.len() as int) =~= kids@);
}

/// What a manifest's document says, given what the disk says beside it.
pub fn manifest_of(doc: &SyntaxTree, dir: &str, fam: Family, beside: Beside, cfg: &Dead) -> (m: Manifest)
    requires
        doc.ok(),
    ensures
        m.deep_view() == says(doc@, dir@, fam, beside, *cfg),
{
    let mut api = copy_list(&cfg.symbols.api_roots);
    let mut entry = copy_list(&cfg.symbols.entrypoints);
    let root = doc.root();
    match fam {
        Family::Rust => {
            let bins = doc.array(doc.get(root, "bin"));
            add_paths(doc, &bins, &mut entry);
            let lib = doc.get(root, "lib");
            match doc.string(doc.get(lib, "path")) {
                Some(p) => put(&mut api, trim_leading(p.as_str(), "./")),
                None => {},
            }
            let file = join_dir(dir, "Cargo.toml");
            let has_bin: bool = bins.len() > 0 || beside.main_file || beside.bin_dir;
            let has_lib: bool = lib.is_some() || beside.lib_file;
            let (mode, why) = if has_bin {
                let what: &'static str = if bins.len() == 0 {
                    "src/main.rs"
                } else {
                    "[[bin]]"
                };
                (DeadMode::Application, plus(plus(file, " has "), what))
            } else if has_lib {
                (DeadMode::Library, plus(file, " has [lib] and no [[bin]]"))
            } else {
                (DeadMode::Application, plus(file, " names no target"))
            };
            Manifest { dir: dir.to_owned(), mode, why, api_roots: glob_set(&api), entrypoints: glob_set(&entry) }
        },
        Family::Python => {
            let scripts: bool = doc.get(doc.get(root, "project"), "scripts").is_some();
            let file = join_dir(dir, "pyproject.toml");
            let (mode, why) = if scripts {
                (DeadMode::Application, plus(file, " has [project.scripts]"))
            } else {
                (DeadMode::Library, plus(file, " has no [project.scripts]"))
            };
            Manifest { dir: dir.to_owned(), mode, why, api_roots: glob_set(&api), entrypoints: glob_set(&entry) }
        },
        Family::TypeScript => {
            add_targets(doc, "exports", &mut api);
            add_targets(doc, "main", &mut api);
            add_targets(doc, "module", &mut api);
            add_targets(doc, "types", &mut api);
            add_targets(doc, "bin", &mut api);
            let file = join_dir(dir, "package.json");
            let (mode, why) = if doc.get(root, "exports").is_some() {
                (DeadMode::Library, plus(file, " has exports"))
            } else {
                (DeadMode::Application, plus(file, " has no exports"))
            };
            Manifest { dir: dir.to_owned(), mode, why, api_roots: glob_set(&api), entrypoints: glob_set(&entry) }
        },
    }
}

/// The document of a manifest's text.
pub open spec fn document(fam: Family, text: Chars) -> Option<Seq<crate::docs::BitView>> {
    match fam {
        Family::TypeScript => json_parsed(text),
        _ => toml_parsed(text),
    }
}

/// `m` is what the document with the nodes `raw` says.
pub open spec fn says_of(
    raw: Seq<crate::docs::BitView>,
    m: ManifestView,
    dir: Chars,
    fam: Family,
    beside: Beside,
    cfg: Dead,
) -> bool {
    exists|t: Nodes| #[trigger] crate::tree::built(crate::docs::nodes_of(raw), t) && m == says(t, dir, fam, beside, cfg)
}

/// The manifest of a family with the text `text`, or none where the text does not parse.
pub fn read_manifest(text: &str, dir: &str, fam: Family, beside: Beside, cfg: &Dead) -> (r: Option<Manifest>)
    ensures
        r is Some <==> document(fam, text@) is Some,
        r matches Some(m) ==> says_of(document(fam, text@)->0, m.deep_view(), dir@, fam, beside, *cfg),
{
    let doc = match fam {
        Family::TypeScript => read_json(text),
        _ => read_toml(text),
    };
    match doc {
        Some(t) => {
            let m = manifest_of(&t, dir, fam, beside, cfg);
            assert(crate::tree::built(crate::docs::nodes_of(document(fam, text@)->0), t@));
            Some(m)
        },
        None => None,
    }
}

// ---------- all manifests ----------

/// One directory that was looked at, for one family.
pub struct Entry {
    pub dir: String,
    pub family: Family,
    pub manifest: Option<Manifest>,
}

/// Per-file mode and root resolution.
pub struct Modes {
    pub mode: DeadMode,
    pub entries: Vec<Entry>,
    pub api: globset::GlobSet,
    pub entry: globset::GlobSet,
}

/// The first entry, from `k` on, of a directory and a family that holds a manifest.
pub open spec fn entry_from(entries: Seq<Entry>, d: Chars, fam: Family, k: int) -> Option<int>
    decreases entries.len() - k,
{
    if k < 0 || k >= entries.len() {
        None
    } else if entries[k].dir@ == d && entries[k].family == fam && entries[k].manifest is Some {
        Some(k)
    } else {
        entry_from(entries, d, fam, k + 1)
    }
}

/// The nearest manifest at or above `d` for a family.
pub open spec fn nearest(entries: Seq<Entry>, d: Chars, fam: Family) -> Option<int>
    decreases d.len(),
{
    match entry_from(entries, d, fam, 0) {
        Some(k) => Some(k),
        None => if d.len() == 0 || dir_of(d).len() >= d.len() {
            None
        } else {
            nearest(entries, dir_of(d), fam)
        },
    }
}

/// The path seen from the directory of a manifest.
pub open spec fn relative(path: Chars, d: Chars) -> Chars {
    if d.len() == 0 {
        path
    } else {
        match without_prefix(path, d + "/"@) {
            Some(rel) => rel,
            None => path,
        }
    }
}

/// The mode of a file, and whether it is an API root and an entrypoint.
pub open spec fn resolution(m: Modes, path: Chars, lang: Language) -> (DeadMode, bool, bool) {
    match nearest(m.entries@, dir_of(path), family_of(lang)) {
        Some(k) => {
            let man = m.entries@[k].manifest->0.deep_view();
            let rel = relative(path, man.dir);
            (
                if m.mode == DeadMode::Auto {
                    man.mode
                } else {
                    m.mode
                },
                hit_by(man.api_roots, path) || hit_by(man.api_roots, rel) || hit_by(set_globs(m.api), path),
                hit_by(man.entrypoints, path) || hit_by(man.entrypoints, rel) || hit_by(set_globs(m.entry), path),
            )
        },
        None => (
            if m.mode == DeadMode::Auto {
                DeadMode::Application
            } else {
                m.mode
            },
            hit_by(set_globs(m.api), path),
            hit_by(set_globs(m.entry), path),
        ),
    }
}

/// The line of one manifest.
pub open spec fn mode_row(m: ManifestView) -> Chars {
    (if m.dir.len() == 0 {
        "."@
    } else {
        m.dir
    }) + ": "@ + mode_text(m.mode) + " ("@ + m.why + ")"@
}

/// The lines of all manifests.
pub open spec fn mode_rows(entries: Seq<Entry>) -> Seq<Chars>
    decreases entries.len(),
{
    if entries.len() == 0 {
        Seq::empty()
    } else {
        match entries.last().manifest {
            Some(m) => mode_rows(entries.drop_last()).push(mode_row(m.deep_view())),
            None => mode_rows(entries.drop_last()),
        }
    }
}

impl Modes {
    /// The modes of a repository, given what was found in each directory.
    pub fn new(entries: Vec<Entry>, cfg: &Dead) -> (r: Modes)
        ensures
            r.mode == cfg.symbols.mode,
            r.entries@ == entries@,
            set_globs(r.api) == kept_globs(cfg.symbols.api_roots.deep_view()),
            set_globs(r.entry) == kept_globs(cfg.symbols.entrypoints.deep_view()),
    {
        Modes {
            mode: cfg.symbols.mode,
            entries,
            api: glob_set(&cfg.symbols.api_roots),
            entry: glob_set(&cfg.symbols.entrypoints),
        }
    }

    /// The nearest manifest above `path` for its language family.
    pub fn manifest(&self, path: &str, lang: Language) -> (r: Option<&Manifest>)
        ensures
            match nearest(self.entries@, dir_of(path@), family_of(lang)) {
                Some(k) => 0 <= k < self.entries.len() && r == Some(&self.entries@[k].manifest->0)
                    && self.entries@[k].manifest is Some,
                None => r is None,
            },
    {
        let fam = family(lang);
        let mut d = dir(path);
        loop
            invariant
                fam == family_of(lang),
                nearest(self.entries@, dir_of(path@), fam) == nearest(self.entries@, d@, fam),
            decreases d@.len(),
        {
            let mut k: usize = 0;
            while k < self.entries.len()
                invariant
                    k <= self.entries.len(),
                    fam == family_of(lang),
                    nearest(self.entries@, dir_of(path@), fam) == nearest(self.entries@, d@, fam),
                    entry_from(self.entries@, d@, fam, 0) == entry_from(self.entries@, d@, fam, k as int),
                decreases self.entries.len() - k,
            {
                let e = &self.entries[k];
                if e.family == fam && same(e.dir.as_str(), d.as_str()) {
                    match &e.manifest {
                        Some(m) => {
                            return Some(m);
                        },
                        None => {},
                    }
                }
                k = k + 1;
            }
            if d.as_str().is_empty() {
                return None;
            }
            proof {
                dir_is_shorter(d@);
            }
            d = dir(d.as_str());
        }
    }

    /// `(mode, api root?, entrypoint?)` for one file.
    pub fn resolve(&self, path: &str, lang: Language) -> (r: (DeadMode, bool, bool))
        ensures
            r == resolution(*self, path@, lang),
    {
        match self.manifest(path, lang) {
            Some(m) => {
                let mode = if self.mode == DeadMode::Auto {
                    m.mode
                } else {
                    self.mode
                };
                let rel: String = if m.dir.as_str().is_empty() {
                    path.to_owned()
                } else {
                    let prefix = plus(m.dir.clone(), "/");
                    match strip_prefix(path, prefix.as_str()) {
                        Some(rel) => rel,
                        None => path.to_owned(),
                    }
                };
                let is_api: bool = glob_match(&m.api_roots, path) || glob_match(&m.api_roots, rel.as_str())
                    || glob_match(&self.api, path);
                let is_entry: bool = glob_match(&m.entrypoints, path) || glob_match(&m.entrypoints, rel.as_str())
                    || glob_match(&self.entry, path);
                (mode, is_api, is_entry)
            },
            None => {
                let mode = if self.mode == DeadMode::Auto {
                    DeadMode::Application
                } else {
                    self.mode
                };
                (mode, glob_match(&self.api, path), glob_match(&self.entry, path))
            },
        }
    }

    /// One line per manifest, `dir: mode (why)`, in order and without repeats.
    pub fn summary(&self) -> (out: Vec<String>)
        ensures
            out.deep_view() == deduped(sorted_texts(mode_rows(self.entries@))),
    {
        let mut rows: Vec<String> = Vec::new();
        let mut k: usize = 0;
        assert(self.entries@.take(0) =~= Seq::<Entry>::empty());
        assert(rows.deep_view() =~= Seq::<Chars>::empty());
        while k < self.entries.len()
            invariant
                k <= self.entries.len(),
                rows.deep_view() == mode_rows(self.entries@.take(k as int)),
            decreases self.entries.len() - k,
        {
            assert(self.entries@.take(k + 1).drop_last() =~= self.entries@.take(k as int));
            match &self.entries[k].manifest {
                Some(m) => {
                    let d: String = if m.dir.as_str().is_empty() {
                        ".".to_owned()
                    } else {
                        m.dir.clone()
                    };
                    let row = plus(plus(plus(plus(plus(d, ": "), mode_name(m.mode)), " ("), m.why.as_str()), ")");
                    put(&mut rows, row);
                },
                None => {},
            }
            k = k + 1;
        }
        assert(self.entries@.take(self.entries@.len() as int) =~= self.entries@);
        let sorted = sort_texts(&rows);
        dedup_texts(&sorted)
    }
}

/// A directory of a family was listed.
pub open spec fn listed(out: Seq<(Chars, Family)>, d: Chars, fam: Family) -> bool {
    out.contains((d, fam))
}

/// The directories `dirs` of a family, each added once.
pub open spec fn dirs_added(out: Seq<(Chars, Family)>, dirs: Seq<Chars>, fam: Family, k: int) -> Seq<(Chars, Family)>
    decreases dirs.len() - k,
{
    if k < 0 || k >= dirs.len() {
        out
    } else if listed(out, dirs[k], fam) {
        dirs_added(out, dirs, fam, k + 1)
    } else {
        dirs_added(out.push((dirs[k], fam)), dirs, fam, k + 1)
    }
}

/// Every directory above every file, once per language family.
pub open spec fn manifest_dirs_of(files: Seq<crate::dead::index::FileIndex>) -> Seq<(Chars, Family)>
    decreases files.len(),
{
    if files.len() == 0 {
        Seq::empty()
    } else {
        dirs_added(
            manifest_dirs_of(files.drop_last()),
            crate::paths::above(dir_of(files.last().path@)),
            family_of(files.last().lang),
            0,
        )
    }
}

impl DeepView for Family {
    type V = Family;

    open spec fn deep_view(&self) -> Family {
        *self
    }
}

/// What the manifest of a language family is called.
pub open spec fn manifest_text(fam: Family) -> Chars {
    match fam {
        Family::Rust => "Cargo.toml"@,
        Family::Python => "pyproject.toml"@,
        Family::TypeScript => "package.json"@,
    }
}

/// The file name of a family's manifest.
pub fn manifest_name(fam: Family) -> (r: &'static str)
    ensures
        r@ == manifest_text(fam),
{
    match fam {
        Family::Rust => "Cargo.toml",
        Family::Python => "pyproject.toml",
        Family::TypeScript => "package.json",
    }
}

/// The directories a manifest is looked for in: every ancestor directory of every file, once per
/// language family; none where manifests are not read.
pub fn manifest_dirs(index: &SymbolIndex, cfg: &Dead) -> (out: Vec<(String, Family)>)
    ensures
        out.deep_view() == (if cfg.symbols.read_manifests {
            manifest_dirs_of(index.files@)
        } else {
            Seq::empty()
        }),
{
    let mut out: Vec<(String, Family)> = Vec::new();
    assert(out.deep_view() =~= Seq::<(Chars, Family)>::empty());
    if !cfg.symbols.read_manifests {
        return out;
    }
    let mut i: usize = 0;
    assert(index.files@.take(0) =~= Seq::<crate::dead::index::FileIndex>::empty());
    while i < index.files.len()
        invariant
            i <= index.files.len(),
            out.deep_view() == manifest_dirs_of(index.files@.take(i as int)),
        decreases index.files.len() - i,
    {
        assert(index.files@.take(i + 1).drop_last() =~= index.files@.take(i as int));
        let f = &index.files[i];
        let fam = family(f.lang);
        let dirs = dirs_above(dir(f.path.as_str()).as_str());
        let ghost start = out.deep_view();
        let mut k: usize = 0;
        while k < dirs.len()
            invariant
                k <= dirs.len(),
                dirs_added(start, dirs.deep_view(), fam, 0) == dirs_added(
                    out.deep_view(),
                    dirs.deep_view(),
                    fam,
                    k as int,
                ),
            decreases dirs.len() - k,
        {
            assert(dirs.deep_view()[k as int] == dirs@[k as int]@);
            if !has_dir(&out, dirs[k].as_str(), fam) {
                put(&mut out, (dirs[k].clone(), fam));
            }
            k = k + 1;
        }
        i = i + 1;
    }
    assert(index.files@.take(index.files@.len() as int) =~= index.files@);
    out
}

fn has_dir(out: &Vec<(String, Family)>, d: &str, fam: Family) -> (r: bool)
    ensures
        r == listed(out.deep_view(), d@, fam),
{
    let ghost view = out.deep_view();
    let mut k: usize = 0;
    while k < out.len()
        invariant
            k <= out.len(),
            view == out.deep_view(),
            forall|j: int| 0 <= j < k ==> view[j] != (d@, fam),
        decreases out.len() - k,
    {
        assert(view[k as int] == (out@[k as int].0@, out@[k as int].1));
        if out[k].1 == fam && same(out[k].0.as_str(), d) {
            return true;
        }
        k = k + 1;
    }
    false
}

} // verus!
