//! Dependencies no file in their manifest's scope refers to.

use vstd::prelude::*;

use crate::config::Declared;
use crate::declared::manifest::{Dep, DepView, FeatureDecl, FeatureDeclView, Manifest, ManifestView};
use crate::declared::scope::{
    is_test_side, package_of, registry_name, scope_bounds, scope_of, scoped, silenced, silenced_from, test_side,
};
use crate::declared::side::{refs_in, FileSide, SideView};
use crate::declared::words::{doc_mention, mention_from};
use crate::fallback::reasons::{join_and, listed};
use crate::globs::{glob_hit, glob_match, kept_globs, set_globs};
use crate::names::{capped, no_refs, ref_sum, RefCount};
use crate::text::{capped_size, decimal, digits, plus, put, same, Chars};

verus! {

/// A declared dependency no file in its manifest's scope references.
pub struct Orphan {
    pub manifest: String,
    pub name: String,
    pub ident: String,
    pub line: usize,
    pub section: String,
    /// `optional = true`: printed through the feature gating it, never as an orphan line of its own.
    pub optional: bool,
    /// Features whose elements name it (`dep:x` or the implicit `x`).
    pub gated_by: Vec<String>,
    /// The commit that declared the manifest line: (short hash, date).
    pub birth: Option<(String, String)>,
    /// Days from the birth commit to the newest commit, and commits since it.
    pub age_days: Option<usize>,
    pub commits_since: Option<usize>,
    /// `(last commit that still used `ident::`, commit that removed it, its date)` when the scope's
    /// history ever imported it.
    pub ever_imported: Option<(String, String, String)>,
    /// First doc naming the dep: (file, line).
    pub doc_mention: Option<(String, usize)>,
    /// `#![allow(warnings)]` on a crate root: (file, line).
    pub lint_silenced: Option<(String, usize)>,
    pub line_text: String,
}

/// An [`Orphan`] by its contents.
pub struct OrphanView {
    pub manifest: Chars,
    pub name: Chars,
    pub ident: Chars,
    pub line: usize,
    pub section: Chars,
    pub optional: bool,
    pub gated_by: Seq<Chars>,
    pub birth: Option<(Chars, Chars)>,
    pub age_days: Option<usize>,
    pub commits_since: Option<usize>,
    pub ever_imported: Option<(Chars, Chars, Chars)>,
    pub doc_mention: Option<(Chars, usize)>,
    pub lint_silenced: Option<(Chars, usize)>,
    pub line_text: Chars,
}

impl DeepView for Orphan {
    type V = OrphanView;

    open spec fn deep_view(&self) -> OrphanView {
        OrphanView {
            manifest: self.manifest@,
            name: self.name@,
            ident: self.ident@,
            line: self.line,
            section: self.section@,
            optional: self.optional,
            gated_by: self.gated_by.deep_view(),
            birth: self.birth.deep_view(),
            age_days: self.age_days,
            commits_since: self.commits_since,
            ever_imported: self.ever_imported.deep_view(),
            doc_mention: self.doc_mention.deep_view(),
            lint_silenced: self.lint_silenced.deep_view(),
            line_text: self.line_text@,
        }
    }
}

/// A `[dependencies]` entry only test code references.
pub struct Misplaced {
    pub manifest: String,
    pub name: String,
    pub line: usize,
    pub test_refs: u32,
    pub files: Vec<String>,
    pub line_text: String,
}

/// A [`Misplaced`] by its contents.
pub struct MisplacedView {
    pub manifest: Chars,
    pub name: Chars,
    pub line: usize,
    pub test_refs: u32,
    pub files: Seq<Chars>,
    pub line_text: Chars,
}

impl DeepView for Misplaced {
    type V = MisplacedView;

    open spec fn deep_view(&self) -> MisplacedView {
        MisplacedView {
            manifest: self.manifest@,
            name: self.name@,
            line: self.line,
            test_refs: self.test_refs,
            files: self.files.deep_view(),
            line_text: self.line_text@,
        }
    }
}

/// What a pass over the manifests reads.
pub struct Pass<'a> {
    pub sides: &'a Vec<FileSide>,
    /// Files that are test context as a whole, by a `#[cfg(test)] mod`.
    pub tests: &'a Vec<String>,
    pub manifests: &'a Vec<Manifest>,
    pub scope: &'a Vec<Vec<usize>>,
    pub docs: &'a Vec<(String, String)>,
    pub side_effect: &'a globset::GlobSet,
    pub cfg: &'a Declared,
}

/// A [`Pass`] by its contents.
pub struct PassView {
    pub sides: Seq<SideView>,
    pub tests: Seq<Chars>,
    pub manifests: Seq<ManifestView>,
    pub docs: Seq<(Chars, Chars)>,
    pub cfg: Declared,
}

impl<'a> View for Pass<'a> {
    type V = PassView;

    open spec fn view(&self) -> PassView {
        PassView {
            sides: self.sides.deep_view(),
            tests: self.tests.deep_view(),
            manifests: self.manifests.deep_view(),
            docs: self.docs.deep_view(),
            cfg: *self.cfg,
        }
    }
}

impl<'a> Pass<'a> {
    /// The scopes and the globs are those of the manifests and the settings.
    pub open spec fn ok(&self) -> bool {
        &&& scoped(self.scope@, self.manifests.deep_view(), self.sides.deep_view())
        &&& set_globs(*self.side_effect) == kept_globs(self.cfg.side_effect_deps.deep_view())
    }

    /// The sides of manifest `i`.
    pub fn scope_at(&self, i: usize) -> (r: &Vec<usize>)
        requires
            self.ok(),
            i < self.manifests.len(),
        ensures
            r@ == scope_of(self@.manifests, self@.sides, i as int),
            forall|k: int| 0 <= k < r.len() ==> #[trigger] r@[k] < self.sides.len(),
    {
        let n: usize = self.sides.len();
        assert(n == self@.sides.len());
        proof {
            scope_bounds(self@.manifests, self@.sides, i as int, self@.sides.len() as int);
        }
        assert(self.scope@[i as int]@ == scope_of(self@.manifests, self@.sides, i as int));
        &self.scope[i]
    }
}

/// What the dependencies have been found to be.
pub struct Checked {
    pub orphans: Vec<Orphan>,
    /// (manifest, in-code name) of each orphan.
    pub idents: Vec<(usize, String)>,
    pub misplaced: Vec<Misplaced>,
    pub side_effect: Vec<String>,
    pub dev_skipped: usize,
    /// `file:line` of each crate root that silences warnings.
    pub silenced: Vec<String>,
    pub deps: usize,
    pub checked: usize,
}

/// [`Checked`] by its contents.
pub struct CheckedView {
    pub orphans: Seq<OrphanView>,
    pub idents: Seq<(usize, Chars)>,
    pub misplaced: Seq<MisplacedView>,
    pub side_effect: Seq<Chars>,
    pub dev_skipped: usize,
    pub silenced: Seq<Chars>,
    pub deps: usize,
    pub checked: usize,
}

impl View for Checked {
    type V = CheckedView;

    open spec fn view(&self) -> CheckedView {
        CheckedView {
            orphans: self.orphans.deep_view(),
            idents: self.idents.deep_view(),
            misplaced: self.misplaced.deep_view(),
            side_effect: self.side_effect.deep_view(),
            dev_skipped: self.dev_skipped,
            silenced: self.silenced.deep_view(),
            deps: self.deps,
            checked: self.checked,
        }
    }
}

/// Nothing found.
pub open spec fn unchecked() -> CheckedView {
    CheckedView {
        orphans: Seq::empty(),
        idents: Seq::empty(),
        misplaced: Seq::empty(),
        side_effect: Seq::empty(),
        dev_skipped: 0,
        silenced: Seq::empty(),
        deps: 0,
        checked: 0,
    }
}

// ---------- references ----------

/// References to `ident` from the first `n` sides of a scope, and the test code they come from.
pub open spec fn dep_refs(p: PassView, scope: Seq<usize>, ident: Chars, n: int) -> (RefCount, Seq<Chars>)
    decreases n,
{
    if n <= 0 {
        (no_refs(), Seq::empty())
    } else {
        let (refs, files) = dep_refs(p, scope, ident, n - 1);
        let s = p.sides[scope[n - 1] as int];
        let rc = refs_in(s.crate_refs, ident);
        if rc == no_refs() {
            (refs, files)
        } else if test_side(s, p.tests) {
            (
                RefCount { prod: refs.prod, test: capped(refs.test + capped(rc.prod + rc.test)) },
                files.push(s.path),
            )
        } else {
            (ref_sum(refs, rc), if rc.test > 0 && rc.prod == 0 {
                files.push("a #[cfg(test)] module in "@ + s.path)
            } else {
                files
            })
        }
    }
}

fn refs_to(p: &Pass, scope: &Vec<usize>, ident: &str) -> (r: (RefCount, Vec<String>))
    requires
        forall|k: int| 0 <= k < scope.len() ==> #[trigger] scope@[k] < p.sides.len(),
    ensures
        (r.0, r.1.deep_view()) == dep_refs(p@, scope@, ident@, scope.len() as int),
{
    let ghost sv = p.sides.deep_view();
    let mut refs = RefCount { prod: 0, test: 0 };
    let mut files: Vec<String> = Vec::new();
    assert(files.deep_view() =~= Seq::<Chars>::empty());
    let mut k: usize = 0;
    while k < scope.len()
        invariant
            k <= scope.len(),
            sv == p.sides.deep_view(),
            forall|k: int| 0 <= k < scope.len() ==> #[trigger] scope@[k] < p.sides.len(),
            (refs, files.deep_view()) == dep_refs(p@, scope@, ident@, k as int),
        decreases scope.len() - k,
    {
        assert(scope@[k as int] < p.sides.len());
        let s = &p.sides[scope[k]];
        assert(sv[scope@[k as int] as int] == s.deep_view());
        let rc = s.crate_refs_of(ident);
        if rc.prod > 0 || rc.test > 0 {
            if is_test_side(s, p.tests) {
                refs.test = refs.test.saturating_add(rc.total());
                put(&mut files, s.path.clone());
            } else {
                refs.add(rc);
                if rc.test > 0 && rc.prod == 0 {
                    put(&mut files, plus("a #[cfg(test)] module in ".to_owned(), s.path.as_str()));
                }
            }
        }
        k = k + 1;
    }
    (refs, files)
}

// ---------- one dependency ----------

/// An element that names a dependency.
pub open spec fn names_it(e: Chars, name: Chars) -> bool {
    e == "dep:"@ + name || e == name
}

/// Some element names a dependency.
pub open spec fn gates_dep(elements: Seq<Chars>, name: Chars) -> bool {
    exists|k: int| 0 <= k < elements.len() && names_it(#[trigger] elements[k], name)
}

/// The features whose elements name a dependency.
pub open spec fn gating(features: Seq<FeatureDeclView>, name: Chars) -> Seq<Chars>
    decreases features.len(),
{
    if features.len() == 0 {
        Seq::empty()
    } else if gates_dep(features.last().elements, name) {
        gating(features.drop_last(), name).push(features.last().name)
    } else {
        gating(features.drop_last(), name)
    }
}

/// Does an element name a dependency?
pub fn is_gating(elements: &Vec<String>, name: &str) -> (r: bool)
    ensures
        r == gates_dep(elements.deep_view(), name@),
{
    let ghost view = elements.deep_view();
    let dep = plus("dep:".to_owned(), name);
    let mut k: usize = 0;
    while k < elements.len()
        invariant
            k <= elements.len(),
            view == elements.deep_view(),
            dep@ == "dep:"@ + name@,
            forall|j: int| 0 <= j < k ==> !names_it(#[trigger] view[j], name@),
        decreases elements.len() - k,
    {
        assert(view[k as int] == elements@[k as int]@);
        if same(elements[k].as_str(), dep.as_str()) || same(elements[k].as_str(), name) {
            return true;
        }
        k = k + 1;
    }
    false
}

fn gated_by(features: &Vec<FeatureDecl>, name: &str) -> (out: Vec<String>)
    ensures
        out.deep_view() == gating(features.deep_view(), name@),
{
    let ghost view = features.deep_view();
    let mut out: Vec<String> = Vec::new();
    assert(out.deep_view() =~= Seq::<Chars>::empty());
    assert(view.take(0) =~= Seq::<FeatureDeclView>::empty());
    let mut k: usize = 0;
    while k < features.len()
        invariant
            k <= features.len(),
            view == features.deep_view(),
            out.deep_view() == gating(view.take(k as int), name@),
        decreases features.len() - k,
    {
        assert(view.take(k + 1).drop_last() =~= view.take(k as int));
        assert(view[k as int] == features@[k as int].deep_view());
        if is_gating(&features[k].elements, name) {
            put(&mut out, features[k].name.clone());
        }
        k = k + 1;
    }
    assert(view.take(view.len() as int) =~= view);
    out
}

/// A dependency linked for its effect.
pub open spec fn for_effect(p: PassView, i: int, d: DepView) -> bool {
    let globs = p.cfg.side_effect_deps.deep_view();
    glob_hit(globs, d.name) || (match package_of(p.manifests, i, d) {
        Some(x) => glob_hit(globs, x),
        None => false,
    })
}

/// An orphan before history is asked.
pub open spec fn orphan_of(p: PassView, i: int, d: DepView, sil: Option<(Chars, usize)>) -> OrphanView {
    OrphanView {
        manifest: p.manifests[i].path,
        name: d.name,
        ident: d.ident,
        line: d.line,
        section: d.section,
        optional: d.optional,
        gated_by: gating(p.manifests[i].features, d.name),
        birth: None,
        age_days: None,
        commits_since: None,
        ever_imported: None,
        doc_mention: mention_from(p.docs, d.name, d.ident, 0),
        lint_silenced: sil,
        line_text: Seq::empty(),
    }
}

/// Where a dependency that only tests use should stand.
pub open spec fn misplaced_of(manifest: Chars, d: DepView, refs: RefCount, files: Seq<Chars>) -> MisplacedView {
    MisplacedView {
        manifest,
        name: d.name,
        line: d.line,
        test_refs: refs.test,
        files,
        line_text: d.name + " is declared in [dependencies] ("@ + manifest + ":"@ + digits(d.line as nat)
            + ") but its only "@ + (if refs.test == 1 {
            "reference is"@
        } else {
            digits(refs.test as nat) + " references are"@
        }) + " in "@ + listed(files) + " - move it to [dev-dependencies]"@,
    }
}

/// What one dependency adds.
pub open spec fn dep_step(p: PassView, i: int, d: DepView, sil: Option<(Chars, usize)>, c: CheckedView) -> CheckedView {
    if d.dev && !p.cfg.check_dev_dependencies {
        CheckedView { dev_skipped: capped_size((c.dev_skipped + 1) as nat), ..c }
    } else if for_effect(p, i, d) {
        CheckedView { side_effect: c.side_effect.push(d.name), ..c }
    } else {
        let scope = scope_of(p.manifests, p.sides, i);
        let (refs, files) = dep_refs(p, scope, d.ident, scope.len() as int);
        let seen = CheckedView { checked: capped_size((c.checked + 1) as nat), ..c };
        if refs == no_refs() {
            CheckedView {
                idents: seen.idents.push((i as usize, d.ident)),
                orphans: seen.orphans.push(orphan_of(p, i, d, sil)),
                ..seen
            }
        } else if p.cfg.check_placement && !d.dev && refs.prod == 0 && refs.test > 0 && d.section == "dependencies"@ {
            CheckedView { misplaced: seen.misplaced.push(misplaced_of(p.manifests[i].path, d, refs, files)), ..seen }
        } else {
            seen
        }
    }
}

fn misplace(manifest: &str, d: &Dep, refs: RefCount, files: Vec<String>) -> (r: Misplaced)
    ensures
        r.deep_view() == misplaced_of(manifest@, d.deep_view(), refs, files.deep_view()),
{
    let count = if refs.test == 1 {
        "reference is".to_owned()
    } else {
        plus(decimal(refs.test as usize), " references are")
    };
    let mut o = d.name.clone();
    o.append(" is declared in [dependencies] (");
    o.append(manifest);
    o.append(":");
    o.append(decimal(d.line).as_str());
    o.append(") but its only ");
    o.append(count.as_str());
    o.append(" in ");
    o.append(join_and(&files).as_str());
    o.append(" - move it to [dev-dependencies]");
    Misplaced {
        manifest: manifest.to_owned(),
        name: d.name.clone(),
        line: d.line,
        test_refs: refs.test,
        files,
        line_text: o,
    }
}

/// A copy of a place in a file.
pub fn copy_place(p: &Option<(String, usize)>) -> (r: Option<(String, usize)>)
    ensures
        r.deep_view() == p.deep_view(),
{
    match p {
        Some(x) => Some((x.0.clone(), x.1)),
        None => None,
    }
}

fn has_effect(p: &Pass, i: usize, j: usize) -> (r: bool)
    requires
        p.ok(),
        i < p.manifests.len(),
        j < p.manifests@[i as int].deps.len(),
    ensures
        r == for_effect(p@, i as int, p.manifests@[i as int].deps@[j as int].deep_view()),
{
    if glob_match(p.side_effect, p.manifests[i].deps[j].name.as_str()) {
        return true;
    }
    match registry_name(p.manifests, i, j) {
        Some(x) => glob_match(p.side_effect, x.as_str()),
        None => false,
    }
}

fn check_dep(p: &Pass, i: usize, j: usize, sil: &Option<(String, usize)>, c: &mut Checked)
    requires
        p.ok(),
        i < p.manifests.len(),
        j < p.manifests@[i as int].deps.len(),
    ensures
        final(c)@ == dep_step(
            p@,
            i as int,
            p.manifests@[i as int].deps@[j as int].deep_view(),
            sil.deep_view(),
            old(c)@,
        ),
{
    let d = &p.manifests[i].deps[j];
    if d.dev && !p.cfg.check_dev_dependencies {
        c.dev_skipped = c.dev_skipped.saturating_add(1);
        return;
    }
    if has_effect(p, i, j) {
        put(&mut c.side_effect, d.name.clone());
        return;
    }
    c.checked = c.checked.saturating_add(1);
    let scope = p.scope_at(i);
    let (refs, files) = refs_to(p, scope, d.ident.as_str());
    assert(p@.manifests[i as int] == p.manifests@[i as int].deep_view());
    if refs.prod == 0 && refs.test == 0 {
        let empty = String::new();
        assert(empty@ =~= Seq::<char>::empty());
        put(&mut c.idents, (i, d.ident.clone()));
        put(
            &mut c.orphans,
            Orphan {
                manifest: p.manifests[i].path.clone(),
                name: d.name.clone(),
                ident: d.ident.clone(),
                line: d.line,
                section: d.section.clone(),
                optional: d.optional,
                gated_by: gated_by(&p.manifests[i].features, d.name.as_str()),
                birth: None,
                age_days: None,
                commits_since: None,
                ever_imported: None,
                doc_mention: doc_mention(p.docs, d.name.as_str(), d.ident.as_str()),
                lint_silenced: copy_place(sil),
                line_text: empty,
            },
        );
    } else if p.cfg.check_placement && !d.dev && refs.prod == 0 && refs.test > 0 && same(d.section.as_str(), "dependencies") {
        put(&mut c.misplaced, misplace(p.manifests[i].path.as_str(), d, refs, files));
    }
}

// ---------- all manifests ----------

/// What the first `n` dependencies of manifest `i` add.
pub open spec fn deps_upto(p: PassView, i: int, sil: Option<(Chars, usize)>, c: CheckedView, n: int) -> CheckedView
    decreases n,
{
    if n <= 0 {
        c
    } else {
        dep_step(p, i, p.manifests[i].deps[n - 1], sil, deps_upto(p, i, sil, c, n - 1))
    }
}

/// The crate root of manifest `i` that silences warnings.
pub open spec fn silencer(p: PassView, i: int) -> Option<(Chars, usize)> {
    silenced_from(p.sides, scope_of(p.manifests, p.sides, i), p.manifests[i].root_files, 0)
}

/// Manifest `i` is left out: its crate silences warnings, and such crates are skipped.
pub open spec fn left_out(p: PassView, i: int) -> bool {
    p.cfg.skip_lint_silenced_crates && silencer(p, i) is Some
}

/// What the first `n` manifests add.
pub open spec fn checked_upto(p: PassView, n: int) -> CheckedView
    decreases n,
{
    if n <= 0 {
        unchecked()
    } else {
        let i = n - 1;
        let before = checked_upto(p, i);
        let sil = silencer(p, i);
        let c = match sil {
            Some((f, l)) => CheckedView { silenced: before.silenced.push(f + ":"@ + digits(l as nat)), ..before },
            None => before,
        };
        if left_out(p, i) {
            c
        } else {
            let m = p.manifests[i];
            deps_upto(
                p,
                i,
                sil,
                CheckedView { deps: capped_size((c.deps + m.deps.len()) as nat), ..c },
                m.deps.len() as int,
            )
        }
    }
}

/// Which crate root of manifest `i` silences warnings.
pub fn silencing_root(p: &Pass, i: usize) -> (r: Option<(String, usize)>)
    requires
        p.ok(),
        i < p.manifests.len(),
    ensures
        r.deep_view() == silencer(p@, i as int),
{
    assert(p@.manifests[i as int] == p.manifests@[i as int].deep_view());
    silenced(p.sides, p.scope_at(i), &p.manifests[i].root_files)
}

/// Check every dependency of every manifest.
pub fn check_deps(p: &Pass) -> (c: Checked)
    requires
        p.ok(),
    ensures
        c@ == checked_upto(p@, p@.manifests.len() as int),
{
    let mut c = Checked {
        orphans: Vec::new(),
        idents: Vec::new(),
        misplaced: Vec::new(),
        side_effect: Vec::new(),
        dev_skipped: 0,
        silenced: Vec::new(),
        deps: 0,
        checked: 0,
    };
    assert(c.orphans.deep_view() =~= Seq::<OrphanView>::empty());
    assert(c.idents.deep_view() =~= Seq::<(usize, Chars)>::empty());
    assert(c.misplaced.deep_view() =~= Seq::<MisplacedView>::empty());
    assert(c.side_effect.deep_view() =~= Seq::<Chars>::empty());
    assert(c.silenced.deep_view() =~= Seq::<Chars>::empty());
    assert(p.manifests.len() == p@.manifests.len());
    let mut i: usize = 0;
    while i < p.manifests.len()
        invariant
            i <= p.manifests.len(),
            p.ok(),
            p.manifests.len() == p@.manifests.len(),
            c@ == checked_upto(p@, i as int),
        decreases p.manifests.len() - i,
    {
        let ghost next = checked_upto(p@, i + 1);
        assert(p@.manifests[i as int] == p.manifests@[i as int].deep_view());
        let sil = silencing_root(p, i);
        if let Some(x) = &sil {
            put(&mut c.silenced, plus(plus(x.0.clone(), ":"), decimal(x.1).as_str()));
        }
        if !(p.cfg.skip_lint_silenced_crates && sil.is_some()) {
            let n: usize = p.manifests[i].deps.len();
            assert(n == p@.manifests[i as int].deps.len());
            c.deps = c.deps.saturating_add(n);
            let ghost start = c@;
            let mut j: usize = 0;
            while j < n
                invariant
                    j <= n,
                    i < p.manifests.len(),
                    p.ok(),
                    n == p.manifests@[i as int].deps.len(),
                    p@.manifests[i as int] == p.manifests@[i as int].deep_view(),
                    c@ == deps_upto(p@, i as int, sil.deep_view(), start, j as int),
                decreases n - j,
            {
                assert(p@.manifests[i as int].deps[j as int] == p.manifests@[i as int].deps@[j as int].deep_view());
                check_dep(p, i, j, &sil, &mut c);
                j = j + 1;
            }
        }
        assert(c@ == next);
        i = i + 1;
    }
    c
}

// ---------- laws ----------

pub(crate) proof fn refs_grow(p: PassView, scope: Seq<usize>, ident: Chars, k: int, n: int)
    requires
        0 <= k < n,
        refs_in(p.sides[scope[k] as int].crate_refs, ident) != no_refs(),
    ensures
        dep_refs(p, scope, ident, n).0 != no_refs(),
    decreases n,
{
    if k < n - 1 {
        refs_grow(p, scope, ident, k, n - 1);
    }
}

pub(crate) proof fn refs_stay(p: PassView, scope: Seq<usize>, ident: Chars, n: int)
    requires
        forall|k: int| 0 <= k < n ==> refs_in(p.sides[#[trigger] scope[k] as int].crate_refs, ident) == no_refs(),
    ensures
        dep_refs(p, scope, ident, n).0 == no_refs(),
    decreases n,
{
    if n > 0 {
        refs_stay(p, scope, ident, n - 1);
        assert(refs_in(p.sides[scope[n - 1] as int].crate_refs, ident) == no_refs());
    }
}

/// A checked dependency is an orphan exactly where no file in its manifest's scope references it.
pub proof fn an_orphan_has_no_reference(p: PassView, i: int, d: DepView, sil: Option<(Chars, usize)>, c: CheckedView)
    requires
        !(d.dev && !p.cfg.check_dev_dependencies),
        !for_effect(p, i, d),
    ensures
        (dep_step(p, i, d, sil, c).orphans.len() == c.orphans.len() + 1) <==> (forall|k: int|
            0 <= k < scope_of(p.manifests, p.sides, i).len() ==> refs_in(
                p.sides[#[trigger] scope_of(p.manifests, p.sides, i)[k] as int].crate_refs,
                d.ident,
            ) == no_refs()),
{
    let scope = scope_of(p.manifests, p.sides, i);
    if forall|k: int| 0 <= k < scope.len() ==> refs_in(p.sides[#[trigger] scope[k] as int].crate_refs, d.ident) == no_refs() {
        refs_stay(p, scope, d.ident, scope.len() as int);
    } else {
        let k = choose|k: int|
            0 <= k < scope.len() && refs_in(p.sides[#[trigger] scope[k] as int].crate_refs, d.ident) != no_refs();
        refs_grow(p, scope, d.ident, k, scope.len() as int);
    }
}

} // verus!
