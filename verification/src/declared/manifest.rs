//! Cargo manifests: what they declare, and on which lines.

use vstd::prelude::*;

use crate::dead::walk::{head, head_of};
use crate::docs::{all_strings, elements, is_true, read_toml, root_of, string_at, strings_in, toml_parsed, under};
use crate::paths::{join_dir, joined_path, norm_path, normal};
use crate::text::{
    around_last, extend, join, joined, leading_run, lines, lines_of, plus, put, replace, rsplit_once, run_of, same,
    slice, starts, starts_with, strip_end, strip_start, stripped_end, stripped_start, swapped, trim, trim_leading,
    trim_start, trimmed, trimmed_start, without_leading, Chars,
};
use crate::tree::{is_kind, Nodes, SyntaxTree};

verus! {

/// One declared dependency.
pub struct Dep {
    /// The table key (`pulldown-cmark`)…
    pub name: String,
    /// …and the in-code name (`pulldown_cmark`); never the `package` value.
    pub ident: String,
    pub line: usize,
    /// `dependencies`, `dev-dependencies`, `build-dependencies`, `target.'cfg(unix)'.dependencies`.
    pub section: String,
    pub optional: bool,
    pub dev: bool,
    /// `x = { workspace = true }`, resolved from the workspace table.
    pub workspace: bool,
    /// Registry name when renamed (`package = "memmap2"`).
    pub package: Option<String>,
}

/// A [`Dep`] by its contents.
pub struct DepView {
    pub name: Chars,
    pub ident: Chars,
    pub line: usize,
    pub section: Chars,
    pub optional: bool,
    pub dev: bool,
    pub workspace: bool,
    pub package: Option<Chars>,
}

impl DeepView for Dep {
    type V = DepView;

    open spec fn deep_view(&self) -> DepView {
        DepView {
            name: self.name@,
            ident: self.ident@,
            line: self.line,
            section: self.section@,
            optional: self.optional,
            dev: self.dev,
            workspace: self.workspace,
            package: self.package.deep_view(),
        }
    }
}

/// One `[features]` entry.
pub struct FeatureDecl {
    pub name: String,
    pub line: usize,
    pub elements: Vec<String>,
    /// The `#` comment block right above the line: (first line, last line, text).
    pub comment: Option<(usize, usize, String)>,
}

/// A [`FeatureDecl`] by its contents.
pub struct FeatureDeclView {
    pub name: Chars,
    pub line: usize,
    pub elements: Seq<Chars>,
    pub comment: Option<(usize, usize, Chars)>,
}

impl DeepView for FeatureDecl {
    type V = FeatureDeclView;

    open spec fn deep_view(&self) -> FeatureDeclView {
        FeatureDeclView {
            name: self.name@,
            line: self.line,
            elements: self.elements.deep_view(),
            comment: self.comment.deep_view(),
        }
    }
}

/// What a manifest declares.
pub struct Manifest {
    /// Repo-relative path (`crates/index/Cargo.toml`).
    pub path: String,
    /// Its directory (`""` at the root).
    pub dir: String,
    pub deps: Vec<Dep>,
    pub features: Vec<FeatureDecl>,
    /// Feature names `required-features` / docs.rs metadata / cargo-all-features consume.
    pub consumers: Vec<String>,
    pub has_bin: bool,
    /// Crate root files, repo-relative (`src/lib.rs`, `src/main.rs`, `[[bin]] path`).
    pub root_files: Vec<String>,
    /// `[workspace.dependencies]`, each with the package it renames.
    pub workspace_deps: Vec<(String, Option<String>)>,
    /// (dep dir repo-relative, features) for every path dep with a `features` list.
    pub path_dep_features: Vec<(String, Vec<String>)>,
}

/// A [`Manifest`] by its contents.
pub struct ManifestView {
    pub path: Chars,
    pub dir: Chars,
    pub deps: Seq<DepView>,
    pub features: Seq<FeatureDeclView>,
    pub consumers: Seq<Chars>,
    pub has_bin: bool,
    pub root_files: Seq<Chars>,
    pub workspace_deps: Seq<(Chars, Option<Chars>)>,
    pub path_dep_features: Seq<(Chars, Seq<Chars>)>,
}

impl DeepView for Manifest {
    type V = ManifestView;

    open spec fn deep_view(&self) -> ManifestView {
        ManifestView {
            path: self.path@,
            dir: self.dir@,
            deps: self.deps.deep_view(),
            features: self.features.deep_view(),
            consumers: self.consumers.deep_view(),
            has_bin: self.has_bin,
            root_files: self.root_files.deep_view(),
            workspace_deps: self.workspace_deps.deep_view(),
            path_dep_features: self.path_dep_features.deep_view(),
        }
    }
}

// ---------- lines ----------

/// A character that a header is compared without.
pub open spec fn loose(c: char) -> bool {
    c == '"' || c == '\'' || c == ' ' || c == '\t'
}

/// Header text for comparison with a key path: quotes and spaces dropped.
pub open spec fn tight(h: Chars) -> Chars
    decreases h.len(),
{
    if h.len() == 0 {
        h
    } else if loose(h.last()) {
        tight(h.drop_last())
    } else {
        tight(h.drop_last()).push(h.last())
    }
}

/// Header text normalised for comparison with a key path: quotes and spaces dropped.
pub fn norm_header(h: &str) -> (r: String)
    ensures
        r@ == tight(h@),
{
    let v = crate::text::chars(h);
    let mut out = String::new();
    let mut k: usize = 0;
    assert(v@.take(0) =~= Seq::<char>::empty());
    assert(out@ =~= Seq::<char>::empty());
    while k < v.len()
        invariant
            k <= v.len(),
            out@ == tight(v@.take(k as int)),
        decreases v.len() - k,
    {
        assert(v@.take(k + 1).drop_last() =~= v@.take(k as int));
        let c: char = v[k];
        if !(c == '"' || c == '\'' || c == ' ' || c == '\t') {
            out.push(c);
        }
        k = k + 1;
    }
    assert(v@.take(v@.len() as int) =~= v@);
    out
}

/// Where keys are declared, as far as a text has been read: the current table header, and each
/// (header, key) with its line.
pub struct KeysView {
    pub header: Chars,
    pub found: Seq<((Chars, Chars), usize)>,
}

/// The key a `key = …` or `key.x = …` line declares.
pub open spec fn key_of(l: Chars) -> Option<Chars> {
    let raw = run_of(l, "_-\"'"@);
    let key = stripped_end(stripped_start(raw, "\"'"@), "\"'"@);
    let rest = trimmed_start(l.subrange(raw.len() as int, l.len() as int));
    if key.len() > 0 && (starts(rest, "="@) || starts(rest, "."@)) {
        Some(key)
    } else {
        None
    }
}

/// The header of a `[table]` or `[[table]]` line.
pub open spec fn header_of(l: Chars) -> Chars {
    tight(trimmed(head_of(stripped_start(l, "["@), ']')))
}

/// What a line adds.
pub open spec fn key_step(s: KeysView, line: Chars, at: usize) -> KeysView {
    let l = trimmed(line);
    if starts(l, "["@) {
        let h = header_of(l);
        KeysView {
            header: h,
            found: match around_last(h, '.') {
                Some((parent, key)) => s.found.push(((parent, key), at)),
                None => s.found,
            },
        }
    } else if l.len() == 0 || starts(l, "#"@) {
        s
    } else {
        match key_of(l) {
            Some(key) => KeysView { found: s.found.push(((s.header, key), at)), ..s },
            None => s,
        }
    }
}

/// What the first `n` lines declare.
pub open spec fn keys_upto(list: Seq<Chars>, n: int) -> KeysView
    decreases n,
{
    if n <= 0 {
        KeysView { header: Seq::empty(), found: Seq::empty() }
    } else {
        key_step(keys_upto(list, n - 1), list[n - 1], n as usize)
    }
}

/// Lines of a text where a key is declared, by (normalised table header, key): a `key = …` line
/// under the table, or a `[table.key]` / `[[table.key]]` header; the first of a key counts.
pub open spec fn keys_in(text: Chars) -> Seq<((Chars, Chars), usize)> {
    keys_upto(lines_of(text), lines_of(text).len() as int).found
}

/// The line of a key, 0 where it is declared nowhere.
pub open spec fn line_of_key(found: Seq<((Chars, Chars), usize)>, header: Chars, key: Chars, k: int) -> usize
    decreases found.len() - k,
{
    if k < 0 || k >= found.len() {
        0
    } else if found[k].0 == (header, key) {
        found[k].1
    } else {
        line_of_key(found, header, key, k + 1)
    }
}

proof fn run_end_bounds(s: Chars, extra: Chars, k: int)
    requires
        0 <= k <= s.len(),
    ensures
        k <= crate::text::run_end(s, extra, k) <= s.len(),
    decreases s.len() - k,
{
    if k < s.len() {
        run_end_bounds(s, extra, k + 1);
    }
}

fn declared_key(l: &str) -> (r: Option<String>)
    ensures
        r.deep_view() == key_of(l@),
{
    let raw = leading_run(l, "_-\"'");
    proof {
        run_end_bounds(l@, "_-\"'"@, 0);
    }
    let key = strip_end(strip_start(raw.as_str(), "\"'").as_str(), "\"'");
    let n: usize = crate::text::chars(raw.as_str()).len();
    let v = crate::text::chars(l);
    let rest = trim_start(slice(&v, n, v.len()).as_str());
    if !key.as_str().is_empty() && (starts_with(rest.as_str(), "=") || starts_with(rest.as_str(), ".")) {
        Some(key)
    } else {
        None
    }
}

/// Lines of `text` where a key is declared, by (normalised table header, key).
pub fn key_lines(text: &str) -> (out: Vec<((String, String), usize)>)
    ensures
        out.deep_view() == keys_in(text@),
{
    let list = lines(text);
    let ghost view = list.deep_view();
    let mut out: Vec<((String, String), usize)> = Vec::new();
    let mut header = String::new();
    assert(out.deep_view() =~= Seq::<((Chars, Chars), usize)>::empty());
    assert(header@ =~= Seq::<char>::empty());
    let mut k: usize = 0;
    while k < list.len()
        invariant
            k <= list.len(),
            view == list.deep_view(),
            keys_upto(view, k as int) == (KeysView { header: header@, found: out.deep_view() }),
        decreases list.len() - k,
    {
        assert(view[k as int] == list@[k as int]@);
        let l = trim(list[k].as_str());
        if starts_with(l.as_str(), "[") {
            let h = norm_header(trim(head(strip_start(l.as_str(), "[").as_str(), ']').as_str()).as_str());
            if let Some((parent, key)) = rsplit_once(h.as_str(), '.') {
                put(&mut out, ((parent, key), k + 1));
            }
            header = h;
        } else if !(l.as_str().is_empty() || starts_with(l.as_str(), "#")) {
            if let Some(key) = declared_key(l.as_str()) {
                put(&mut out, ((header.clone(), key), k + 1));
            }
        }
        k = k + 1;
    }
    out
}

fn key_line(found: &Vec<((String, String), usize)>, header: &str, key: &str) -> (r: usize)
    ensures
        r == line_of_key(found.deep_view(), header@, key@, 0),
{
    let ghost view = found.deep_view();
    let mut k: usize = 0;
    while k < found.len()
        invariant
            k <= found.len(),
            view == found.deep_view(),
            line_of_key(view, header@, key@, 0) == line_of_key(view, header@, key@, k as int),
        decreases found.len() - k,
    {
        assert(view[k as int] == found@[k as int].deep_view());
        if same(found[k].0.0.as_str(), header) && same(found[k].0.1.as_str(), key) {
            return found[k].1;
        }
        k = k + 1;
    }
    0
}

/// The comment lines that end right before index `at`: where they start, and what they say.
pub open spec fn block_over(list: Seq<Chars>, at: int) -> (int, Seq<Chars>)
    decreases at,
{
    if at > 0 && at - 1 < list.len() && starts(trimmed_start(list[at - 1]), "#"@) {
        let (first, body) = block_over(list, at - 1);
        (first, body.push(trimmed(stripped_start(trimmed_start(list[at - 1]), "#"@))))
    } else {
        (at, Seq::empty())
    }
}

/// The `#` comment block right above line `at` (1-based).
pub open spec fn comment_over(text: Chars, at: usize) -> Option<(usize, usize, Chars)> {
    if at == 0 {
        None
    } else {
        let (first, body) = block_over(lines_of(text), at - 1);
        if body.len() == 0 {
            None
        } else {
            Some(((first + 1) as usize, (at - 1) as usize, joined(body, " "@)))
        }
    }
}

fn block_above(list: &Vec<String>, at: usize) -> (r: (usize, Vec<String>))
    ensures
        (r.0 as int, r.1.deep_view()) == block_over(list.deep_view(), at as int),
        r.0 <= at,
        r.1.len() > 0 ==> r.0 < at,
    decreases at,
{
    let ghost view = list.deep_view();
    if at > 0 && at - 1 < list.len() {
        assert(view[at - 1] == list@[at - 1]@);
        let l = trim_start(list[at - 1].as_str());
        if starts_with(l.as_str(), "#") {
            let (first, mut body) = block_above(list, at - 1);
            put(&mut body, trim(strip_start(l.as_str(), "#").as_str()));
            return (first, body);
        }
    }
    let none: Vec<String> = Vec::new();
    assert(none.deep_view() =~= Seq::<Chars>::empty());
    (at, none)
}

/// The `#` comment block right above line `at` (1-based).
pub fn comment_above(text: &str, at: usize) -> (r: Option<(usize, usize, String)>)
    ensures
        r.deep_view() == comment_over(text@, at),
{
    if at == 0 {
        return None;
    }
    let list = lines(text);
    let (first, body) = block_above(&list, at - 1);
    assert(body.len() == body.deep_view().len());
    if body.len() == 0 {
        None
    } else {
        Some((first + 1, at - 1, join(&body, " ")))
    }
}

// ---------- tables ----------

/// The entries of a table; none where there is no table.
pub open spec fn entries(t: Nodes, i: Option<usize>) -> Seq<usize> {
    if is_kind(t, i, "table"@) {
        t[i->0 as int].children
    } else {
        Seq::empty()
    }
}

fn table(t: &SyntaxTree, i: Option<usize>) -> (out: Vec<usize>)
    requires
        t.ok(),
        i matches Some(n) ==> n < t@.len(),
    ensures
        out@ == entries(t@, i),
        forall|k: int| 0 <= k < out@.len() ==> #[trigger] out@[k] < t@.len(),
{
    match i {
        Some(n) => if t.is(n, "table") {
            assert(crate::tree::node_ok(t@, n as int));
            let out = crate::tree::copy_indices(&t.nodes[n].children);
            assert(out@ == t@[n as int].children);
            out
        } else {
            Vec::new()
        },
        None => Vec::new(),
    }
}

fn key_at(t: &SyntaxTree, i: usize) -> (r: &str)
    requires
        i < t@.len(),
    ensures
        r@ == t@[i as int].field,
{
    t.nodes[i].field.as_str()
}

/// One dependency of a section.
pub open spec fn dep_of(t: Nodes, c: usize, section: Chars, dev: bool, found: Seq<((Chars, Chars), usize)>) -> DepView {
    let name = t[c as int].field;
    DepView {
        name,
        ident: swapped(name, '-', '_'),
        line: line_of_key(found, tight(section), name, 0),
        section,
        optional: is_true(t, under(t, Some(c), "optional"@)),
        dev,
        workspace: is_true(t, under(t, Some(c), "workspace"@)),
        package: string_at(t, under(t, Some(c), "package"@)),
    }
}

/// The dependencies of a section.
pub open spec fn deps_of(
    t: Nodes,
    kids: Seq<usize>,
    section: Chars,
    dev: bool,
    found: Seq<((Chars, Chars), usize)>,
) -> Seq<DepView> {
    Seq::new(kids.len(), |k: int| dep_of(t, kids[k], section, dev, found))
}

/// The dependencies under the three sections of `at`, whose names start with `prefix`.
pub open spec fn sections_of(t: Nodes, at: Option<usize>, prefix: Chars, found: Seq<((Chars, Chars), usize)>) -> Seq<DepView> {
    deps_of(t, entries(t, under(t, at, "dependencies"@)), prefix + "dependencies"@, false, found) + deps_of(
        t,
        entries(t, under(t, at, "build-dependencies"@)),
        prefix + "build-dependencies"@,
        false,
        found,
    ) + deps_of(t, entries(t, under(t, at, "dev-dependencies"@)), prefix + "dev-dependencies"@, true, found)
}

/// The dependencies of the targets.
pub open spec fn target_deps(t: Nodes, kids: Seq<usize>, found: Seq<((Chars, Chars), usize)>) -> Seq<DepView>
    decreases kids.len(),
{
    if kids.len() == 0 {
        Seq::empty()
    } else {
        target_deps(t, kids.drop_last(), found) + sections_of(
            t,
            Some(kids.last()),
            "target.'"@ + t[kids.last() as int].field + "'."@,
            found,
        )
    }
}

/// Every dependency of a manifest.
pub open spec fn all_deps(t: Nodes, found: Seq<((Chars, Chars), usize)>) -> Seq<DepView> {
    sections_of(t, root_of(t), Seq::empty(), found) + target_deps(t, entries(t, under(t, root_of(t), "target"@)), found)
}

fn add_deps(
    t: &SyntaxTree,
    at: Option<usize>,
    prefix: &str,
    name: &str,
    dev: bool,
    found: &Vec<((String, String), usize)>,
    out: &mut Vec<Dep>,
)
    requires
        t.ok(),
    ensures
        final(out).deep_view() == old(out).deep_view() + deps_of(
            t@,
            entries(t@, under(t@, at, name@)),
            prefix@ + name@,
            dev,
            found.deep_view(),
        ),
{
    let ghost was = out.deep_view();
    let section = plus(prefix.to_owned(), name);
    let header = norm_header(section.as_str());
    let kids = table(t, t.get(at, name));
    let ghost all = deps_of(t@, kids@, section@, dev, found.deep_view());
    let mut k: usize = 0;
    assert(all.take(0) =~= Seq::<DepView>::empty());
    assert(was + all.take(0) =~= was);
    while k < kids.len()
        invariant
            k <= kids.len(),
            t.ok(),
            section@ == prefix@ + name@,
            header@ == tight(section@),
            forall|k: int| 0 <= k < kids@.len() ==> #[trigger] kids@[k] < t@.len(),
            all == deps_of(t@, kids@, section@, dev, found.deep_view()),
            out.deep_view() == was + all.take(k as int),
        decreases kids.len() - k,
    {
        let c: usize = kids[k];
        assert(kids@[k as int] < t@.len());
        let key = key_at(t, c);
        put(
            out,
            Dep {
                name: key.to_owned(),
                ident: replace(key, '-', '_'),
                line: key_line(found, header.as_str(), key),
                section: section.clone(),
                optional: t.flag(t.get(Some(c), "optional")),
                dev,
                workspace: t.flag(t.get(Some(c), "workspace")),
                package: t.string(t.get(Some(c), "package")),
            },
        );
        assert(was + all.take(k + 1) =~= (was + all.take(k as int)).push(all[k as int]));
        k = k + 1;
    }
    assert(all.take(all.len() as int) =~= all);
}

fn add_sections(
    t: &SyntaxTree,
    at: Option<usize>,
    prefix: &str,
    found: &Vec<((String, String), usize)>,
    out: &mut Vec<Dep>,
)
    requires
        t.ok(),
    ensures
        final(out).deep_view() == old(out).deep_view() + sections_of(t@, at, prefix@, found.deep_view()),
{
    let ghost was = out.deep_view();
    let ghost f = found.deep_view();
    add_deps(t, at, prefix, "dependencies", false, found, out);
    add_deps(t, at, prefix, "build-dependencies", false, found, out);
    add_deps(t, at, prefix, "dev-dependencies", true, found, out);
    proof {
        let a = deps_of(t@, entries(t@, under(t@, at, "dependencies"@)), prefix@ + "dependencies"@, false, f);
        let b = deps_of(t@, entries(t@, under(t@, at, "build-dependencies"@)), prefix@ + "build-dependencies"@, false, f);
        let c = deps_of(t@, entries(t@, under(t@, at, "dev-dependencies"@)), prefix@ + "dev-dependencies"@, true, f);
        assert(was + (a + b + c) =~= was + a + b + c);
    }
}

fn dep_list(t: &SyntaxTree, found: &Vec<((String, String), usize)>) -> (out: Vec<Dep>)
    requires
        t.ok(),
    ensures
        out.deep_view() == all_deps(t@, found.deep_view()),
{
    let ghost f = found.deep_view();
    let mut out: Vec<Dep> = Vec::new();
    assert(out.deep_view() =~= Seq::<DepView>::empty());
    let root = t.root();
    proof {
        reveal_strlit("");
    }
    assert(""@ =~= Seq::<char>::empty());
    add_sections(t, root, "", found, &mut out);
    let ghost first = sections_of(t@, root_of(t@), Seq::empty(), f);
    assert(out.deep_view() =~= first);
    let kids = table(t, t.get(root, "target"));
    let mut k: usize = 0;
    assert(kids@.take(0) =~= Seq::<usize>::empty());
    assert(first + Seq::<DepView>::empty() =~= first);
    while k < kids.len()
        invariant
            k <= kids.len(),
            t.ok(),
            f == found.deep_view(),
            forall|k: int| 0 <= k < kids@.len() ==> #[trigger] kids@[k] < t@.len(),
            out.deep_view() == first + target_deps(t@, kids@.take(k as int), f),
        decreases kids.len() - k,
    {
        assert(kids@.take(k + 1).drop_last() =~= kids@.take(k as int));
        let c: usize = kids[k];
        assert(kids@[k as int] < t@.len());
        let prefix = plus(plus("target.'".to_owned(), key_at(t, c)), "'.");
        add_sections(t, Some(c), prefix.as_str(), found, &mut out);
        proof {
            let a = target_deps(t@, kids@.take(k as int), f);
            let b = sections_of(t@, Some(c), prefix@, f);
            assert(first + (a + b) =~= first + a + b);
        }
        k = k + 1;
    }
    assert(kids@.take(kids@.len() as int) =~= kids@);
    out
}

/// The path dependencies of a section with a `features` list.
pub open spec fn path_features(t: Nodes, kids: Seq<usize>, dir: Chars) -> Seq<(Chars, Seq<Chars>)>
    decreases kids.len(),
{
    if kids.len() == 0 {
        Seq::empty()
    } else {
        let rest = path_features(t, kids.drop_last(), dir);
        let c = Some(kids.last());
        let feats = strings_in(t, elements(t, under(t, c, "features"@)));
        match string_at(t, under(t, c, "path"@)) {
            Some(p) => if feats.len() > 0 {
                rest.push((normal(joined_path(dir, p)), feats))
            } else {
                rest
            },
            None => rest,
        }
    }
}

fn add_path_features(t: &SyntaxTree, name: &str, dir: &str, out: &mut Vec<(String, Vec<String>)>)
    requires
        t.ok(),
    ensures
        final(out).deep_view() == old(out).deep_view() + path_features(
            t@,
            entries(t@, under(t@, root_of(t@), name@)),
            dir@,
        ),
{
    let ghost was = out.deep_view();
    let kids = table(t, t.get(t.root(), name));
    let mut k: usize = 0;
    assert(kids@.take(0) =~= Seq::<usize>::empty());
    assert(was + Seq::<(Chars, Seq<Chars>)>::empty() =~= was);
    while k < kids.len()
        invariant
            k <= kids.len(),
            t.ok(),
            forall|k: int| 0 <= k < kids@.len() ==> #[trigger] kids@[k] < t@.len(),
            out.deep_view() == was + path_features(t@, kids@.take(k as int), dir@),
        decreases kids.len() - k,
    {
        assert(kids@.take(k + 1).drop_last() =~= kids@.take(k as int));
        assert(kids@[k as int] < t@.len());
        let c = Some(kids[k]);
        let ghost rest = path_features(t@, kids@.take(k as int), dir@);
        if let Some(p) = t.string(t.get(c, "path")) {
            let feats = t.strings(t.get(c, "features"));
            assert(feats.len() == feats.deep_view().len());
            if feats.len() > 0 {
                let at = norm_path(join_dir(dir, p.as_str()).as_str());
                let ghost x = (at@, feats.deep_view());
                put(out, (at, feats));
                assert(was + rest.push(x) =~= (was + rest).push(x));
            }
        }
        k = k + 1;
    }
    assert(kids@.take(kids@.len() as int) =~= kids@);
}

/// The `[features]` entries.
pub open spec fn features_of(t: Nodes, kids: Seq<usize>, text: Chars, found: Seq<((Chars, Chars), usize)>) -> Seq<
    FeatureDeclView,
> {
    Seq::new(
        kids.len(),
        |k: int|
            {
                let name = t[kids[k] as int].field;
                let line = line_of_key(found, "features"@, name, 0);
                FeatureDeclView {
                    name,
                    line,
                    elements: strings_in(t, elements(t, Some(kids[k]))),
                    comment: if line > 0 {
                        comment_over(text, line)
                    } else {
                        None
                    },
                }
            },
    )
}

fn feature_list(t: &SyntaxTree, text: &str, found: &Vec<((String, String), usize)>) -> (out: Vec<FeatureDecl>)
    requires
        t.ok(),
    ensures
        out.deep_view() == features_of(t@, entries(t@, under(t@, root_of(t@), "features"@)), text@, found.deep_view()),
{
    let kids = table(t, t.get(t.root(), "features"));
    let ghost all = features_of(t@, kids@, text@, found.deep_view());
    let mut out: Vec<FeatureDecl> = Vec::new();
    let mut k: usize = 0;
    while k < kids.len()
        invariant
            k <= kids.len(),
            t.ok(),
            forall|k: int| 0 <= k < kids@.len() ==> #[trigger] kids@[k] < t@.len(),
            all == features_of(t@, kids@, text@, found.deep_view()),
            out.len() == k,
            forall|j: int| 0 <= j < k ==> (#[trigger] out@[j]).deep_view() == all[j],
        decreases kids.len() - k,
    {
        assert(kids@[k as int] < t@.len());
        let name = key_at(t, kids[k]);
        let line: usize = key_line(found, "features", name);
        let comment = if line > 0 {
            comment_above(text, line)
        } else {
            None
        };
        let f = FeatureDecl { name: name.to_owned(), line, elements: t.strings(Some(kids[k])), comment };
        assert(f.deep_view() == all[k as int]);
        out.push(f);
        k = k + 1;
    }
    assert(out.deep_view() =~= all);
    out
}

/// The features the targets of a list require.
pub open spec fn required(t: Nodes, kids: Seq<usize>) -> Seq<Chars>
    decreases kids.len(),
{
    if kids.len() == 0 {
        Seq::empty()
    } else {
        required(t, kids.drop_last()) + strings_in(t, elements(t, under(t, Some(kids.last()), "required-features"@)))
    }
}

/// The paths the binaries of a list name.
pub open spec fn bin_paths(t: Nodes, kids: Seq<usize>, dir: Chars) -> Seq<Chars>
    decreases kids.len(),
{
    if kids.len() == 0 {
        Seq::empty()
    } else {
        let rest = bin_paths(t, kids.drop_last(), dir);
        match string_at(t, under(t, Some(kids.last()), "path"@)) {
            Some(p) => rest.push(joined_path(dir, without_leading(p, "./"@))),
            None => rest,
        }
    }
}

/// The strings anywhere under a key of the package metadata.
pub open spec fn metadata(t: Nodes, key: Chars) -> Seq<Chars> {
    match under(t, under(t, under(t, root_of(t), "package"@), "metadata"@), key) {
        Some(m) => all_strings(t, m),
        None => Seq::empty(),
    }
}

/// The features a manifest itself consumes.
pub open spec fn consumed_by(t: Nodes) -> Seq<Chars> {
    let root = root_of(t);
    required(t, elements(t, under(t, root, "bin"@))) + required(t, elements(t, under(t, root, "example"@))) + required(
        t,
        elements(t, under(t, root, "test"@)),
    ) + required(t, elements(t, under(t, root, "bench"@))) + metadata(t, "docs.rs"@) + metadata(t, "cargo-all-features"@)
}

fn add_required(t: &SyntaxTree, name: &str, out: &mut Vec<String>)
    requires
        t.ok(),
    ensures
        final(out).deep_view() == old(out).deep_view() + required(t@, elements(t@, under(t@, root_of(t@), name@))),
{
    let ghost was = out.deep_view();
    let kids = t.array(t.get(t.root(), name));
    let mut k: usize = 0;
    assert(kids@.take(0) =~= Seq::<usize>::empty());
    assert(was + Seq::<Chars>::empty() =~= was);
    while k < kids.len()
        invariant
            k <= kids.len(),
            t.ok(),
            forall|k: int| 0 <= k < kids@.len() ==> #[trigger] kids@[k] < t@.len(),
            out.deep_view() == was + required(t@, kids@.take(k as int)),
        decreases kids.len() - k,
    {
        assert(kids@.take(k + 1).drop_last() =~= kids@.take(k as int));
        assert(kids@[k as int] < t@.len());
        let more = t.strings(t.get(Some(kids[k]), "required-features"));
        extend(out, &more);
        assert(was + (required(t@, kids@.take(k as int)) + more.deep_view()) =~= was + required(t@, kids@.take(k as int))
            + more.deep_view());
        k = k + 1;
    }
    assert(kids@.take(kids@.len() as int) =~= kids@);
}

fn add_metadata(t: &SyntaxTree, key: &str, out: &mut Vec<String>)
    requires
        t.ok(),
    ensures
        final(out).deep_view() == old(out).deep_view() + metadata(t@, key@),
{
    match t.get(t.get(t.get(t.root(), "package"), "metadata"), key) {
        Some(m) => {
            let more = t.all_strings(m);
            extend(out, &more);
        },
        None => {
            assert(out.deep_view() + Seq::<Chars>::empty() =~= out.deep_view());
        },
    }
}

fn consumer_list(t: &SyntaxTree) -> (out: Vec<String>)
    requires
        t.ok(),
    ensures
        out.deep_view() == consumed_by(t@),
{
    let mut out: Vec<String> = Vec::new();
    add_required(t, "bin", &mut out);
    assert(out.deep_view() =~= required(t@, elements(t@, under(t@, root_of(t@), "bin"@))));
    add_required(t, "example", &mut out);
    add_required(t, "test", &mut out);
    add_required(t, "bench", &mut out);
    add_metadata(t, "docs.rs", &mut out);
    add_metadata(t, "cargo-all-features", &mut out);
    out
}

/// The crate root files.
pub open spec fn roots(t: Nodes, dir: Chars) -> Seq<Chars> {
    let root = root_of(t);
    let lib = match string_at(t, under(t, under(t, root, "lib"@), "path"@)) {
        Some(p) => p,
        None => "src/lib.rs"@,
    };
    bin_paths(t, elements(t, under(t, root, "bin"@)), dir).push(joined_path(dir, without_leading(lib, "./"@))).push(
        joined_path(dir, "src/main.rs"@),
    )
}

fn root_list(t: &SyntaxTree, dir: &str) -> (out: Vec<String>)
    requires
        t.ok(),
    ensures
        out.deep_view() == roots(t@, dir@),
{
    let kids = t.array(t.get(t.root(), "bin"));
    let mut out: Vec<String> = Vec::new();
    let mut k: usize = 0;
    assert(kids@.take(0) =~= Seq::<usize>::empty());
    assert(out.deep_view() =~= Seq::<Chars>::empty());
    while k < kids.len()
        invariant
            k <= kids.len(),
            t.ok(),
            forall|k: int| 0 <= k < kids@.len() ==> #[trigger] kids@[k] < t@.len(),
            out.deep_view() == bin_paths(t@, kids@.take(k as int), dir@),
        decreases kids.len() - k,
    {
        assert(kids@.take(k + 1).drop_last() =~= kids@.take(k as int));
        assert(kids@[k as int] < t@.len());
        if let Some(p) = t.string(t.get(Some(kids[k]), "path")) {
            put(&mut out, join_dir(dir, trim_leading(p.as_str(), "./").as_str()));
        }
        k = k + 1;
    }
    assert(kids@.take(kids@.len() as int) =~= kids@);
    let lib = match t.string(t.get(t.get(t.root(), "lib"), "path")) {
        Some(p) => p,
        None => "src/lib.rs".to_owned(),
    };
    put(&mut out, join_dir(dir, trim_leading(lib.as_str(), "./").as_str()));
    put(&mut out, join_dir(dir, "src/main.rs"));
    out
}

/// `[workspace.dependencies]`, each with the package it renames.
pub open spec fn workspace_of(t: Nodes) -> Seq<(Chars, Option<Chars>)> {
    let kids = entries(t, under(t, under(t, root_of(t), "workspace"@), "dependencies"@));
    Seq::new(kids.len(), |k: int| (t[kids[k] as int].field, string_at(t, under(t, Some(kids[k]), "package"@))))
}

fn workspace_list(t: &SyntaxTree) -> (out: Vec<(String, Option<String>)>)
    requires
        t.ok(),
    ensures
        out.deep_view() == workspace_of(t@),
{
    let kids = table(t, t.get(t.get(t.root(), "workspace"), "dependencies"));
    let ghost all = workspace_of(t@);
    let mut out: Vec<(String, Option<String>)> = Vec::new();
    let mut k: usize = 0;
    while k < kids.len()
        invariant
            k <= kids.len(),
            t.ok(),
            all == workspace_of(t@),
            kids@ == entries(t@, under(t@, under(t@, root_of(t@), "workspace"@), "dependencies"@)),
            forall|k: int| 0 <= k < kids@.len() ==> #[trigger] kids@[k] < t@.len(),
            out.len() == k,
            forall|j: int| 0 <= j < k ==> (#[trigger] out@[j]).deep_view() == all[j],
        decreases kids.len() - k,
    {
        assert(kids@[k as int] < t@.len());
        let x = (key_at(t, kids[k]).to_owned(), t.string(t.get(Some(kids[k]), "package")));
        assert(x.deep_view() == all[k as int]);
        out.push(x);
        k = k + 1;
    }
    assert(out.deep_view() =~= all);
    out
}

/// The directory of a manifest.
pub open spec fn manifest_dir(rel: Chars) -> Chars {
    match around_last(rel, '/') {
        Some((d, _)) => d,
        None => Seq::empty(),
    }
}

/// What the document of a manifest declares.
pub open spec fn manifest_in(t: Nodes, rel: Chars, text: Chars) -> ManifestView {
    let root = root_of(t);
    let dir = manifest_dir(rel);
    let found = keys_in(text);
    ManifestView {
        path: rel,
        dir,
        deps: all_deps(t, found),
        features: features_of(t, entries(t, under(t, root, "features"@)), text, found),
        consumers: consumed_by(t),
        has_bin: elements(t, under(t, root, "bin"@)).len() > 0,
        root_files: roots(t, dir),
        workspace_deps: workspace_of(t),
        path_dep_features: path_features(t, entries(t, under(t, root, "dependencies"@)), dir) + path_features(
            t,
            entries(t, under(t, root, "build-dependencies"@)),
            dir,
        ) + path_features(t, entries(t, under(t, root, "dev-dependencies"@)), dir),
    }
}

/// What the document of a manifest declares.
pub fn manifest_of(t: &SyntaxTree, rel: &str, text: &str) -> (m: Manifest)
    requires
        t.ok(),
    ensures
        m.deep_view() == manifest_in(t@, rel@, text@),
{
    let dir = match rsplit_once(rel, '/') {
        Some((d, _)) => d,
        None => {
            let none = String::new();
            assert(none@ =~= Seq::<char>::empty());
            none
        },
    };
    let found = key_lines(text);
    let deps = dep_list(t, &found);
    let mut paths: Vec<(String, Vec<String>)> = Vec::new();
    assert(paths.deep_view() =~= Seq::<(Chars, Seq<Chars>)>::empty());
    add_path_features(t, "dependencies", dir.as_str(), &mut paths);
    let ghost a = path_features(t@, entries(t@, under(t@, root_of(t@), "dependencies"@)), dir@);
    assert(paths.deep_view() =~= a);
    add_path_features(t, "build-dependencies", dir.as_str(), &mut paths);
    add_path_features(t, "dev-dependencies", dir.as_str(), &mut paths);
    let bins = t.array(t.get(t.root(), "bin"));
    Manifest {
        path: rel.to_owned(),
        deps,
        features: feature_list(t, text, &found),
        consumers: consumer_list(t),
        has_bin: bins.len() > 0,
        root_files: root_list(t, dir.as_str()),
        workspace_deps: workspace_list(t),
        path_dep_features: paths,
        dir,
    }
}

/// `m` is what the manifest at `rel` with the text `text` declares.
pub open spec fn declares(m: ManifestView, rel: Chars, text: Chars) -> bool {
    exists|t: Nodes| #[trigger]
        crate::tree::built(crate::docs::nodes_of(toml_parsed(text)->0), t) && m == manifest_in(t, rel, text)
}

/// The manifest at `rel` with the text `text`, or none where the text is not TOML.
pub fn parse_cargo(rel: &str, text: &str) -> (r: Option<Manifest>)
    ensures
        r is Some <==> toml_parsed(text@) is Some,
        r matches Some(m) ==> declares(m.deep_view(), rel@, text@),
{
    match read_toml(text) {
        Some(t) => {
            let m = manifest_of(&t, rel, text);
            assert(crate::tree::built(crate::docs::nodes_of(toml_parsed(text@)->0), t@));
            Some(m)
        },
        None => None,
    }
}

} // verus!
