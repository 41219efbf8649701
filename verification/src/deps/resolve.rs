//! Which files an import names.

use vstd::prelude::*;

use crate::config::Deps;
use crate::deps::extract::{RawImport, RawImportView};
use crate::discover::{base_of, basename, dir, dir_of};
use crate::lang::Language;
use crate::names::Names;
use crate::paths::{above, dirs_above, join_path, read_from};
use crate::text::{
    join, joined, parts, plus, put, replace, same, split_on, starts, starts_with, strip_prefix, strip_suffix, swapped, trim_leading,
    trim_trailing, without_leading, without_prefix, without_suffix, without_trailing, Chars,
};

verus! {

/// The first of the candidates from `k` on that is a known file.
pub open spec fn first_known(known: Seq<Chars>, candidates: Seq<Chars>, k: int) -> Option<Chars>
    decreases candidates.len() - k,
{
    if k < 0 || k >= candidates.len() {
        None
    } else if known.contains(candidates[k]) {
        Some(candidates[k])
    } else {
        first_known(known, candidates, k + 1)
    }
}

fn is_known(known: &Names, path: &str) -> (r: bool)
    requires
        known.ok(),
    ensures
        r == known@.contains(path@),
{
    known.find(path).is_some()
}

fn find_known(known: &Names, candidates: &Vec<String>) -> (r: Option<String>)
    requires
        known.ok(),
    ensures
        r.deep_view() == first_known(known@, candidates.deep_view(), 0),
{
    let ghost view = candidates.deep_view();
    let mut k: usize = 0;
    while k < candidates.len()
        invariant
            k <= candidates.len(),
            known.ok(),
            view == candidates.deep_view(),
            first_known(known@, view, 0) == first_known(known@, view, k as int),
        decreases candidates.len() - k,
    {
        assert(view[k as int] == candidates@[k as int]@);
        if is_known(known, candidates[k].as_str()) {
            return Some(candidates[k].as_str().to_owned());
        }
        k = k + 1;
    }
    None
}

// ---------- Python ----------

/// The files a Python module may be.
pub open spec fn python_candidates(base: Chars, module: Chars) -> Seq<Chars> {
    let p = read_from(base, swapped(module, '.', '/'));
    seq![p + ".py"@, p + "/__init__.py"@]
}

/// The files a Python module may be.
pub fn py_candidates(base: &str, module: &str) -> (out: Vec<String>)
    ensures
        out.deep_view() == python_candidates(base@, module@),
{
    let p = join_path(base, replace(module, '.', '/').as_str());
    let mut out: Vec<String> = Vec::new();
    put(&mut out, plus(p.as_str().to_owned(), ".py"));
    put(&mut out, plus(p, "/__init__.py"));
    assert(out.deep_view() =~= python_candidates(base@, module@));
    out
}

/// The file of a Python module.
pub open spec fn python_file(known: Seq<Chars>, base: Chars, module: Chars) -> Option<Chars> {
    first_known(known, python_candidates(base, module), 0)
}

/// The files of the names of an import, those below `spec` where there is one.
pub open spec fn name_files(known: Seq<Chars>, base: Chars, spec: Chars, names: Seq<Chars>) -> Seq<Chars>
    decreases names.len(),
{
    if names.len() == 0 {
        Seq::empty()
    } else {
        let rest = name_files(known, base, spec, names.drop_last());
        let module = if spec.len() == 0 {
            names.last()
        } else {
            spec + "."@ + names.last()
        };
        match python_file(known, base, module) {
            Some(f) => rest.push(f),
            None => rest,
        }
    }
}

/// What an import names below one root: `from . import x` names submodules of the package there. A
/// namespace package has no file of its own, so an import from one names its submodules alone.
pub open spec fn python_hits(known: Seq<Chars>, root: Chars, imp: RawImportView) -> Seq<Chars> {
    if imp.spec.len() == 0 {
        name_files(known, root, imp.spec, imp.names)
    } else {
        match python_file(known, root, imp.spec) {
            Some(f) => seq![f] + name_files(known, root, imp.spec, imp.names),
            None => name_files(known, root, imp.spec, imp.names),
        }
    }
}

/// What an import names below the first root from `k` on where it names anything.
pub open spec fn python_from(known: Seq<Chars>, roots: Seq<Chars>, imp: RawImportView, k: int) -> Option<Seq<Chars>>
    decreases roots.len() - k,
{
    if k < 0 || k >= roots.len() {
        None
    } else if python_hits(known, roots[k], imp).len() > 0 {
        Some(python_hits(known, roots[k], imp))
    } else {
        python_from(known, roots, imp, k + 1)
    }
}

/// `n` directories up.
pub open spec fn up(d: Chars, n: nat) -> Chars
    decreases n,
{
    if n == 0 {
        d
    } else {
        up(dir_of(d), (n - 1) as nat)
    }
}

/// The roots the settings give.
pub open spec fn set_roots(list: Seq<Chars>) -> Seq<Chars> {
    Seq::new(list.len(), |i: int| read_from(Seq::empty(), list[i]))
}

/// Where an import is looked for: a relative one in its package, an absolute one below the roots of
/// the settings, else in the directory of the file and those above it.
pub open spec fn python_roots(from: Chars, level: usize, py_roots: Seq<Chars>) -> Seq<Chars> {
    if level > 0 {
        seq![up(dir_of(from), (level - 1) as nat)]
    } else if py_roots.len() > 0 {
        set_roots(py_roots)
    } else {
        above(dir_of(from))
    }
}

/// The files a Python import names.
pub open spec fn python_targets(from: Chars, imp: RawImportView, known: Seq<Chars>, cfg: Deps) -> Option<Seq<Chars>> {
    python_from(known, python_roots(from, imp.level, cfg.py_roots.deep_view()), imp, 0)
}

fn find_names(known: &Names, base: &str, spec: &str, names: &Vec<String>, out: &mut Vec<String>)
    requires
        known.ok(),
    ensures
        final(out).deep_view() == old(out).deep_view() + name_files(known@, base@, spec@, names.deep_view()),
{
    let ghost view = names.deep_view();
    let ghost start = out.deep_view();
    let mut k: usize = 0;
    assert(view.take(0) =~= Seq::<Chars>::empty());
    assert(start + Seq::<Chars>::empty() =~= start);
    while k < names.len()
        invariant
            k <= names.len(),
            known.ok(),
            view == names.deep_view(),
            out.deep_view() == start + name_files(known@, base@, spec@, view.take(k as int)),
        decreases names.len() - k,
    {
        assert(view.take(k + 1).drop_last() =~= view.take(k as int));
        assert(view[k as int] == names@[k as int]@);
        let module = if spec.is_empty() {
            names[k].as_str().to_owned()
        } else {
            plus(plus(spec.to_owned(), "."), names[k].as_str())
        };
        let ghost rest = name_files(known@, base@, spec@, view.take(k as int));
        let candidates = py_candidates(base, module.as_str());
        if let Some(f) = find_known(known, &candidates) {
            let ghost fv = f@;
            put(out, f);
            assert((start + rest).push(fv) =~= start + rest.push(fv));
        }
        k = k + 1;
    }
    assert(view.take(view.len() as int) =~= view);
}

fn hits_below(known: &Names, root: &str, imp: &RawImport) -> (out: Vec<String>)
    requires
        known.ok(),
    ensures
        out.deep_view() == python_hits(known@, root@, imp.deep_view()),
{
    let mut out: Vec<String> = Vec::new();
    let spec = imp.spec.as_str();
    assert(out.deep_view() =~= Seq::<Chars>::empty());
    if spec.is_empty() {
        find_names(known, root, spec, &imp.names, &mut out);
        assert(out.deep_view() =~= python_hits(known@, root@, imp.deep_view()));
    } else {
        let candidates = py_candidates(root, spec);
        if let Some(f) = find_known(known, &candidates) {
            let ghost fv = f@;
            put(&mut out, f);
            assert(out.deep_view() =~= seq![fv]);
        }
        find_names(known, root, spec, &imp.names, &mut out);
        assert(out.deep_view() =~= python_hits(known@, root@, imp.deep_view()));
    }
    out
}

fn roots_for(from: &str, level: usize, py_roots: &Vec<String>) -> (out: Vec<String>)
    ensures
        out.deep_view() == python_roots(from@, level, py_roots.deep_view()),
{
    let d = dir(from);
    let ghost view = py_roots.deep_view();
    assert(view.len() == py_roots.len());
    if level > 0 {
        let mut at = d;
        let mut n: usize = level - 1;
        while n > 0
            invariant
                n < level,
                up(dir_of(from@), (level - 1) as nat) == up(at@, n as nat),
            decreases n,
        {
            at = dir(at.as_str());
            n = n - 1;
        }
        let mut out: Vec<String> = Vec::new();
        put(&mut out, at);
        assert(out.deep_view() =~= python_roots(from@, level, view));
        out
    } else if py_roots.len() > 0 {
        let mut out: Vec<String> = Vec::new();
        let none = String::new();
        assert(none@ =~= Seq::<char>::empty());
        let mut k: usize = 0;
        while k < py_roots.len()
            invariant
                k <= py_roots.len(),
                out.len() == k,
                none@ == Seq::<char>::empty(),
                view == py_roots.deep_view(),
                forall|j: int| 0 <= j < k ==> (#[trigger] out@[j])@ == set_roots(view)[j],
            decreases py_roots.len() - k,
        {
            assert(view[k as int] == py_roots@[k as int]@);
            out.push(join_path(none.as_str(), py_roots[k].as_str()));
            k = k + 1;
        }
        assert(out.deep_view() =~= set_roots(view));
        out
    } else {
        dirs_above(d.as_str())
    }
}

/// The views of a list of files, where there is one.
pub open spec fn opt_list(r: Option<Vec<String>>) -> Option<Seq<Chars>> {
    match r {
        Some(v) => Some(v.deep_view()),
        None => None,
    }
}

/// The files a Python import names.
pub fn resolve_python(from: &str, imp: &RawImport, known: &Names, cfg: &Deps) -> (r: Option<Vec<String>>)
    requires
        known.ok(),
    ensures
        opt_list(r) == python_targets(from@, imp.deep_view(), known@, *cfg),
{
    let roots = roots_for(from, imp.level, &cfg.py_roots);
    let ghost view = roots.deep_view();
    let ghost iv = imp.deep_view();
    let mut k: usize = 0;
    while k < roots.len()
        invariant
            k <= roots.len(),
            known.ok(),
            view == roots.deep_view(),
            iv == imp.deep_view(),
            view == python_roots(from@, imp.level, cfg.py_roots.deep_view()),
            python_targets(from@, iv, known@, *cfg) == python_from(known@, view, iv, k as int),
        decreases roots.len() - k,
    {
        assert(view[k as int] == roots@[k as int]@);
        let hits = hits_below(known, roots[k].as_str(), imp);
        assert(hits.len() == hits.deep_view().len());
        if hits.len() > 0 {
            return Some(hits);
        }
        k = k + 1;
    }
    None
}

// ---------- JavaScript and TypeScript ----------

/// The extensions a module is tried with.
pub open spec fn js_exts() -> Seq<Chars> {
    seq![".ts"@, ".tsx"@, ".js"@, ".jsx"@, ".mjs"@, ".cjs"@, ".mts"@]
}

fn exts() -> (out: Vec<String>)
    ensures
        out.deep_view() == js_exts(),
{
    let mut out: Vec<String> = Vec::new();
    put(&mut out, ".ts".to_owned());
    put(&mut out, ".tsx".to_owned());
    put(&mut out, ".js".to_owned());
    put(&mut out, ".jsx".to_owned());
    put(&mut out, ".mjs".to_owned());
    put(&mut out, ".cjs".to_owned());
    put(&mut out, ".mts".to_owned());
    assert(out.deep_view() =~= js_exts());
    out
}

/// A text with each extension.
pub open spec fn each_ext(stem: Chars) -> Seq<Chars> {
    Seq::new(js_exts().len(), |i: int| stem + js_exts()[i])
}

fn with_exts(stem: &str) -> (out: Vec<String>)
    ensures
        out.deep_view() == each_ext(stem@),
{
    let list = exts();
    let ghost view = list.deep_view();
    let mut out: Vec<String> = Vec::new();
    let mut k: usize = 0;
    while k < list.len()
        invariant
            k <= list.len(),
            out.len() == k,
            view == list.deep_view(),
            view == js_exts(),
            forall|j: int| 0 <= j < k ==> (#[trigger] out@[j])@ == stem@ + view[j],
        decreases list.len() - k,
    {
        assert(view[k as int] == list@[k as int]@);
        out.push(plus(stem.to_owned(), list[k].as_str()));
        k = k + 1;
    }
    assert(out.deep_view() =~= each_ext(stem@));
    out
}

/// A module without the extension of its compiled form: `./x.js` written for ESM output usually
/// means `./x.ts` in source.
pub open spec fn js_stem(base: Chars) -> Chars {
    match without_suffix(base, ".js"@) {
        Some(s) => s,
        None => match without_suffix(base, ".jsx"@) {
            Some(s) => s,
            None => base,
        },
    }
}

/// The file at `base`: itself, with an extension, or the index of a directory.
pub open spec fn js_file(known: Seq<Chars>, base: Chars) -> Option<Chars> {
    if known.contains(base) {
        Some(base)
    } else {
        match first_known(known, each_ext(js_stem(base)), 0) {
            Some(f) => Some(f),
            None => first_known(known, each_ext(base + "/index"@), 0),
        }
    }
}

/// The first base from `k` on with a file.
pub open spec fn js_from(known: Seq<Chars>, bases: Seq<Chars>, k: int) -> Option<Chars>
    decreases bases.len() - k,
{
    if k < 0 || k >= bases.len() {
        None
    } else {
        match js_file(known, bases[k]) {
            Some(f) => Some(f),
            None => js_from(known, bases, k + 1),
        }
    }
}

/// What the first alias from `k` on that starts a specifier stands for, and what follows it.
pub open spec fn alias_from(aliases: Seq<(Chars, Chars)>, spec: Chars, k: int) -> Option<(Chars, Chars)>
    decreases aliases.len() - k,
{
    if k < 0 || k >= aliases.len() {
        None
    } else {
        match without_prefix(spec, aliases[k].0) {
            Some(rest) => Some((aliases[k].1, rest)),
            None => alias_from(aliases, spec, k + 1),
        }
    }
}

/// A path that starts at the importing file.
pub open spec fn relative(spec: Chars) -> bool {
    starts(spec, "./"@) || starts(spec, "../"@) || spec == "."@ || spec == ".."@
}

/// The paths a specifier may stand for: `@/x` is `<nearest ancestor>/<target>/x`.
pub open spec fn js_bases(dir: Chars, spec: Chars, aliases: Seq<(Chars, Chars)>) -> Option<Seq<Chars>> {
    if relative(spec) {
        Some(seq![read_from(dir, spec)])
    } else {
        match alias_from(aliases, spec, 0) {
            Some((target, rest)) => Some(
                Seq::new(above(dir).len(), |i: int| read_from(read_from(above(dir)[i], target), rest)),
            ),
            None => None,
        }
    }
}

/// The file a JavaScript or TypeScript import names.
pub open spec fn js_target(from: Chars, imp: RawImportView, known: Seq<Chars>, cfg: Deps) -> Option<Chars> {
    match js_bases(dir_of(from), imp.spec, cfg.js_aliases.deep_view()) {
        Some(bases) => js_from(known, bases, 0),
        None => None,
    }
}

fn find_alias(aliases: &Vec<(String, String)>, spec: &str) -> (r: Option<(String, String)>)
    ensures
        r.deep_view() == alias_from(aliases.deep_view(), spec@, 0),
{
    let ghost view = aliases.deep_view();
    let mut k: usize = 0;
    while k < aliases.len()
        invariant
            k <= aliases.len(),
            view == aliases.deep_view(),
            alias_from(view, spec@, 0) == alias_from(view, spec@, k as int),
        decreases aliases.len() - k,
    {
        assert(view[k as int] == aliases@[k as int].deep_view());
        if let Some(rest) = strip_prefix(spec, aliases[k].0.as_str()) {
            return Some((aliases[k].1.as_str().to_owned(), rest));
        }
        k = k + 1;
    }
    None
}

fn find_js(known: &Names, base: &str) -> (r: Option<String>)
    requires
        known.ok(),
    ensures
        r.deep_view() == js_file(known@, base@),
{
    if is_known(known, base) {
        return Some(base.to_owned());
    }
    let stem = match strip_suffix(base, ".js") {
        Some(s) => s,
        None => match strip_suffix(base, ".jsx") {
            Some(s) => s,
            None => base.to_owned(),
        },
    };
    let direct = find_known(known, &with_exts(stem.as_str()));
    if direct.is_some() {
        return direct;
    }
    find_known(known, &with_exts(plus(base.to_owned(), "/index").as_str()))
}

fn bases_for(d: &str, spec: &str, aliases: &Vec<(String, String)>) -> (r: Option<Vec<String>>)
    ensures
        opt_list(r) == js_bases(d@, spec@, aliases.deep_view()),
{
    if starts_with(spec, "./") || starts_with(spec, "../") || same(spec, ".") || same(spec, "..") {
        let mut out: Vec<String> = Vec::new();
        put(&mut out, join_path(d, spec));
        assert(out.deep_view() =~= seq![read_from(d@, spec@)]);
        return Some(out);
    }
    match find_alias(aliases, spec) {
        Some((target, rest)) => {
            let list = dirs_above(d);
            let ghost view = list.deep_view();
            let mut out: Vec<String> = Vec::new();
            let mut k: usize = 0;
            while k < list.len()
                invariant
                    k <= list.len(),
                    out.len() == k,
                    view == list.deep_view(),
                    forall|j: int|
                        0 <= j < k ==> (#[trigger] out@[j])@ == read_from(read_from(view[j], target@), rest@),
                decreases list.len() - k,
            {
                assert(view[k as int] == list@[k as int]@);
                out.push(join_path(join_path(list[k].as_str(), target.as_str()).as_str(), rest.as_str()));
                k = k + 1;
            }
            assert(out.deep_view() =~= Seq::new(
                view.len(),
                |i: int| read_from(read_from(view[i], target@), rest@),
            ));
            Some(out)
        },
        None => None,
    }
}

/// The file a JavaScript or TypeScript import names.
pub fn resolve_js(from: &str, imp: &RawImport, known: &Names, cfg: &Deps) -> (r: Option<String>)
    requires
        known.ok(),
    ensures
        r.deep_view() == js_target(from@, imp.deep_view(), known@, *cfg),
{
    let d = dir(from);
    match bases_for(d.as_str(), imp.spec.as_str(), &cfg.js_aliases) {
        None => None,
        Some(bases) => {
            let ghost view = bases.deep_view();
            let mut k: usize = 0;
            while k < bases.len()
                invariant
                    k <= bases.len(),
                    known.ok(),
                    view == bases.deep_view(),
                    js_target(from@, imp.deep_view(), known@, *cfg) == js_from(known@, view, k as int),
                decreases bases.len() - k,
            {
                assert(view[k as int] == bases@[k as int]@);
                let f = find_js(known, bases[k].as_str());
                if f.is_some() {
                    return f;
                }
                k = k + 1;
            }
            None
        },
    }
}

// ---------- Rust ----------

/// Where a file's child modules live.
pub open spec fn child_dir(from: Chars) -> Chars {
    let file = base_of(from);
    if file == "main.rs"@ || file == "lib.rs"@ || file == "mod.rs"@ {
        dir_of(from)
    } else {
        read_from(dir_of(from), without_trailing(file, ".rs"@))
    }
}

/// The files a `mod` declaration may name.
pub open spec fn mod_candidates(home: Chars, name: Chars) -> Seq<Chars> {
    seq![
        without_leading(home + "/"@ + name + ".rs"@, "/"@),
        without_leading(home + "/"@ + name + "/mod.rs"@, "/"@),
    ]
}

/// The first directory from `k` on that holds a crate root.
pub open spec fn crate_root(known: Seq<Chars>, dirs: Seq<Chars>, k: int) -> Option<Chars>
    decreases dirs.len() - k,
{
    if k < 0 || k >= dirs.len() {
        None
    } else if known.contains(read_from(dirs[k], "lib.rs"@)) || known.contains(read_from(dirs[k], "main.rs"@)) {
        Some(dirs[k])
    } else {
        crate_root(known, dirs, k + 1)
    }
}

/// The files the module at a directory may be in.
pub open spec fn module_candidates(base: Chars) -> Seq<Chars> {
    seq![read_from(base, "mod.rs"@), read_from(base, "lib.rs"@), read_from(base, "main.rs"@), base + ".rs"@]
}

/// The files a path below a module may name.
pub open spec fn path_candidates(base: Chars, segs: Seq<Chars>, n: int) -> Seq<Chars> {
    let rel = joined(segs.take(n), "/"@);
    seq![read_from(base, rel + ".rs"@), read_from(base, rel + "/mod.rs"@)]
}

/// The file of the longest of the first `n` segments that name one.
pub open spec fn longest_file(known: Seq<Chars>, base: Chars, segs: Seq<Chars>, n: int) -> Option<Chars>
    decreases n,
{
    if n <= 0 {
        None
    } else {
        match first_known(known, path_candidates(base, segs, n), 0) {
            Some(f) => Some(f),
            None => longest_file(known, base, segs, n - 1),
        }
    }
}

/// The texts that are not empty.
pub open spec fn inked_parts(list: Seq<Chars>) -> Seq<Chars>
    decreases list.len(),
{
    if list.len() == 0 {
        Seq::empty()
    } else {
        let rest = inked_parts(list.drop_last());
        if list.last().len() > 0 {
            rest.push(list.last())
        } else {
            rest
        }
    }
}

/// The head of a path, and what follows it.
pub open spec fn head_and_rest(spec: Chars) -> (Chars, Chars) {
    match crate::text::find_from(spec, "::"@, 0) {
        Some(i) => (spec.take(i), spec.skip(i + 2)),
        None => (spec, Seq::empty()),
    }
}

/// The directory a path starts from.
pub open spec fn rust_base(from: Chars, head: Chars, known: Seq<Chars>) -> Option<Chars> {
    if head == "crate"@ {
        crate_root(known, above(dir_of(from)), 0)
    } else if head == "super"@ {
        Some(dir_of(child_dir(from)))
    } else {
        Some(child_dir(from))
    }
}

/// The file a Rust import names: the longest prefix that names a file wins.
pub open spec fn rust_target(from: Chars, imp: RawImportView, known: Seq<Chars>) -> Option<Chars> {
    match without_prefix(imp.spec, "mod:"@) {
        Some(name) => first_known(known, mod_candidates(child_dir(from), name), 0),
        None => {
            let (head, rest) = head_and_rest(imp.spec);
            let segs = inked_parts(parts(rest, "::"@));
            match rust_base(from, head, known) {
                None => None,
                Some(base) => if segs.len() == 0 {
                    first_known(known, module_candidates(base), 0)
                } else {
                    longest_file(known, base, segs, segs.len() as int)
                },
            }
        },
    }
}

fn home_of(from: &str) -> (r: String)
    ensures
        r@ == child_dir(from@),
{
    let file = basename(from);
    let d = dir(from);
    if same(file.as_str(), "main.rs") || same(file.as_str(), "lib.rs") || same(file.as_str(), "mod.rs") {
        d
    } else {
        join_path(d.as_str(), trim_trailing(file.as_str(), ".rs").as_str())
    }
}

fn find_mod(known: &Names, home: &str, name: &str) -> (r: Option<String>)
    requires
        known.ok(),
    ensures
        r.deep_view() == first_known(known@, mod_candidates(home@, name@), 0),
{
    let stem = plus(plus(home.to_owned(), "/"), name);
    let mut list: Vec<String> = Vec::new();
    put(&mut list, trim_leading(plus(stem.as_str().to_owned(), ".rs").as_str(), "/"));
    put(&mut list, trim_leading(plus(stem, "/mod.rs").as_str(), "/"));
    assert(list.deep_view() =~= mod_candidates(home@, name@));
    find_known(known, &list)
}

fn find_root(known: &Names, dirs: &Vec<String>) -> (r: Option<String>)
    requires
        known.ok(),
    ensures
        r.deep_view() == crate_root(known@, dirs.deep_view(), 0),
{
    let ghost view = dirs.deep_view();
    let mut k: usize = 0;
    while k < dirs.len()
        invariant
            k <= dirs.len(),
            known.ok(),
            view == dirs.deep_view(),
            crate_root(known@, view, 0) == crate_root(known@, view, k as int),
        decreases dirs.len() - k,
    {
        assert(view[k as int] == dirs@[k as int]@);
        let d = dirs[k].as_str();
        if is_known(known, join_path(d, "lib.rs").as_str()) || is_known(known, join_path(d, "main.rs").as_str()) {
            return Some(d.to_owned());
        }
        k = k + 1;
    }
    None
}

fn keep_inked(list: &Vec<String>) -> (out: Vec<String>)
    ensures
        out.deep_view() == inked_parts(list.deep_view()),
{
    let ghost view = list.deep_view();
    let mut out: Vec<String> = Vec::new();
    let mut k: usize = 0;
    assert(view.take(0) =~= Seq::<Chars>::empty());
    assert(out.deep_view() =~= Seq::<Chars>::empty());
    while k < list.len()
        invariant
            k <= list.len(),
            view == list.deep_view(),
            out.deep_view() == inked_parts(view.take(k as int)),
        decreases list.len() - k,
    {
        assert(view.take(k + 1).drop_last() =~= view.take(k as int));
        assert(view[k as int] == list@[k as int]@);
        if !list[k].as_str().is_empty() {
            put(&mut out, list[k].as_str().to_owned());
        }
        k = k + 1;
    }
    assert(view.take(view.len() as int) =~= view);
    out
}

fn split_head(spec: &str) -> (r: (String, String))
    ensures
        (r.0@, r.1@) == head_and_rest(spec@),
{
    let a = crate::text::chars(spec);
    let p = crate::text::chars("::");
    proof {
        reveal_strlit("::");
    }
    match crate::text::find(&a, &p, 0) {
        Some(i) => (crate::text::slice(&a, 0, i), crate::text::slice(&a, i + 2, a.len())),
        None => (spec.to_owned(), String::new()),
    }
}

fn find_module(known: &Names, base: &str) -> (r: Option<String>)
    requires
        known.ok(),
    ensures
        r.deep_view() == first_known(known@, module_candidates(base@), 0),
{
    let mut list: Vec<String> = Vec::new();
    put(&mut list, join_path(base, "mod.rs"));
    put(&mut list, join_path(base, "lib.rs"));
    put(&mut list, join_path(base, "main.rs"));
    put(&mut list, plus(base.to_owned(), ".rs"));
    assert(list.deep_view() =~= module_candidates(base@));
    find_known(known, &list)
}

fn find_longest(known: &Names, base: &str, segs: &Vec<String>) -> (r: Option<String>)
    requires
        known.ok(),
    ensures
        r.deep_view() == longest_file(known@, base@, segs.deep_view(), segs.deep_view().len() as int),
{
    let ghost view = segs.deep_view();
    let mut left: Vec<String> = crate::text::copy_list(segs);
    assert(view.take(view.len() as int) =~= view);
    assert(left.len() == left.deep_view().len());
    while left.len() > 0
        invariant
            view == segs.deep_view(),
            known.ok(),
            left.len() <= view.len(),
            left.deep_view() == view.take(left.len() as int),
            longest_file(known@, base@, view, view.len() as int) == longest_file(known@, base@, view, left.len() as int),
        decreases left.len(),
    {
        let rel = join(&left, "/");
        let mut list: Vec<String> = Vec::new();
        put(&mut list, join_path(base, plus(rel.as_str().to_owned(), ".rs").as_str()));
        put(&mut list, join_path(base, plus(rel, "/mod.rs").as_str()));
        assert(list.deep_view() =~= path_candidates(base@, view, left.len() as int));
        let f = find_known(known, &list);
        if f.is_some() {
            return f;
        }
        let ghost was = left.deep_view();
        left.pop();
        assert(left.deep_view() =~= was.drop_last());
        assert(was.drop_last() =~= view.take(left.len() as int));
    }
    None
}

/// The file a Rust import names.
pub fn resolve_rust(from: &str, imp: &RawImport, known: &Names) -> (r: Option<String>)
    requires
        known.ok(),
    ensures
        r.deep_view() == rust_target(from@, imp.deep_view(), known@),
{
    let home = home_of(from);
    if let Some(name) = strip_prefix(imp.spec.as_str(), "mod:") {
        return find_mod(known, home.as_str(), name.as_str());
    }
    let (head, rest) = split_head(imp.spec.as_str());
    proof {
        reveal_strlit("::");
    }
    let segs = keep_inked(&split_on(rest.as_str(), "::"));
    let base = if same(head.as_str(), "crate") {
        match find_root(known, &dirs_above(dir(from).as_str())) {
            Some(b) => b,
            None => {
                return None;
            },
        }
    } else if same(head.as_str(), "super") {
        dir(home.as_str())
    } else {
        home
    };
    assert(segs.len() == segs.deep_view().len());
    if segs.len() == 0 {
        find_module(known, base.as_str())
    } else {
        find_longest(known, base.as_str(), &segs)
    }
}

// ---------- any language ----------

/// One file, as a list.
pub open spec fn one_of(r: Option<Chars>) -> Option<Seq<Chars>> {
    match r {
        Some(f) => Some(seq![f]),
        None => None,
    }
}

/// The files of the repository an import names; none where it names something else.
pub open spec fn targets_of(from: Chars, lang: Language, imp: RawImportView, known: Seq<Chars>, cfg: Deps) -> Option<
    Seq<Chars>,
> {
    match lang {
        Language::Python => python_targets(from, imp, known, cfg),
        Language::Rust => one_of(rust_target(from, imp, known)),
        _ => one_of(js_target(from, imp, known, cfg)),
    }
}

fn in_list(r: Option<String>) -> (out: Option<Vec<String>>)
    ensures
        opt_list(out) == one_of(r.deep_view()),
{
    match r {
        Some(f) => {
            let ghost fv = f@;
            let mut out: Vec<String> = Vec::new();
            put(&mut out, f);
            assert(out.deep_view() =~= seq![fv]);
            Some(out)
        },
        None => None,
    }
}

/// The files of the repository an import names.
pub fn resolve(from: &str, lang: Language, imp: &RawImport, known: &Names, cfg: &Deps) -> (r: Option<Vec<String>>)
    requires
        known.ok(),
    ensures
        opt_list(r) == targets_of(from@, lang, imp.deep_view(), known@, *cfg),
{
    match lang {
        Language::Python => resolve_python(from, imp, known, cfg),
        Language::Rust => in_list(resolve_rust(from, imp, known)),
        _ => in_list(resolve_js(from, imp, known, cfg)),
    }
}

proof fn first_known_is_known(known: Seq<Chars>, candidates: Seq<Chars>, k: int)
    ensures
        first_known(known, candidates, k) matches Some(f) ==> known.contains(f),
    decreases candidates.len() - k,
{
    if 0 <= k < candidates.len() && !known.contains(candidates[k]) {
        first_known_is_known(known, candidates, k + 1);
    }
}

proof fn name_files_are_known(known: Seq<Chars>, base: Chars, spec: Chars, names: Seq<Chars>)
    ensures
        forall|i: int|
            0 <= i < name_files(known, base, spec, names).len() ==> known.contains(
                #[trigger] name_files(known, base, spec, names)[i],
            ),
    decreases names.len(),
{
    if names.len() > 0 {
        name_files_are_known(known, base, spec, names.drop_last());
        let module = if spec.len() == 0 {
            names.last()
        } else {
            spec + "."@ + names.last()
        };
        first_known_is_known(known, python_candidates(base, module), 0);
        let rest = name_files(known, base, spec, names.drop_last());
        let all = name_files(known, base, spec, names);
        assert forall|i: int| 0 <= i < all.len() implies known.contains(#[trigger] all[i]) by {
            if i < rest.len() {
                assert(all[i] == rest[i]);
            }
        }
    }
}

proof fn python_from_is_known(known: Seq<Chars>, roots: Seq<Chars>, imp: RawImportView, k: int)
    ensures
        python_from(known, roots, imp, k) matches Some(list) ==> list.len() > 0 && forall|i: int|
            0 <= i < list.len() ==> known.contains(#[trigger] list[i]),
    decreases roots.len() - k,
{
    if 0 <= k < roots.len() {
        let hits = python_hits(known, roots[k], imp);
        if hits.len() > 0 {
            name_files_are_known(known, roots[k], imp.spec, imp.names);
            first_known_is_known(known, python_candidates(roots[k], imp.spec), 0);
        } else {
            python_from_is_known(known, roots, imp, k + 1);
        }
    }
}

proof fn js_from_is_known(known: Seq<Chars>, bases: Seq<Chars>, k: int)
    ensures
        js_from(known, bases, k) matches Some(f) ==> known.contains(f),
    decreases bases.len() - k,
{
    if 0 <= k < bases.len() {
        first_known_is_known(known, each_ext(js_stem(bases[k])), 0);
        first_known_is_known(known, each_ext(bases[k] + "/index"@), 0);
        js_from_is_known(known, bases, k + 1);
    }
}

proof fn longest_is_known(known: Seq<Chars>, base: Chars, segs: Seq<Chars>, n: int)
    ensures
        longest_file(known, base, segs, n) matches Some(f) ==> known.contains(f),
    decreases n,
{
    if n > 0 {
        first_known_is_known(known, path_candidates(base, segs, n), 0);
        longest_is_known(known, base, segs, n - 1);
    }
}

/// An import resolves to discovered files only, and to at least one where it resolves at all.
pub proof fn targets_are_known(from: Chars, lang: Language, imp: RawImportView, known: Seq<Chars>, cfg: Deps)
    ensures
        targets_of(from, lang, imp, known, cfg) matches Some(list) ==> list.len() > 0 && forall|i: int|
            0 <= i < list.len() ==> known.contains(#[trigger] list[i]),
{
    match lang {
        Language::Python => {
            python_from_is_known(known, python_roots(from, imp.level, cfg.py_roots.deep_view()), imp, 0);
        },
        Language::Rust => {
            match without_prefix(imp.spec, "mod:"@) {
                Some(name) => {
                    first_known_is_known(known, mod_candidates(child_dir(from), name), 0);
                },
                None => {
                    let (head, rest) = head_and_rest(imp.spec);
                    let segs = inked_parts(parts(rest, "::"@));
                    match rust_base(from, head, known) {
                        Some(base) => {
                            first_known_is_known(known, module_candidates(base), 0);
                            longest_is_known(known, base, segs, segs.len() as int);
                        },
                        None => {},
                    }
                },
            }
        },
        _ => {
            match js_bases(dir_of(from), imp.spec, cfg.js_aliases.deep_view()) {
                Some(bases) => {
                    js_from_is_known(known, bases, 0);
                },
                None => {},
            }
        },
    }
}

} // verus!
