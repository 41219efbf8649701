//! What resolving an import finds, stated over paths and the known files alone.

use vstd::prelude::*;

use crate::config::Deps;
use crate::deps::extract::RawImportView;
use crate::deps::resolve::{
    alias_from, crate_root, each_ext, first_known, js_bases, js_file, js_from, js_stem, longest_file, mod_candidates,
    name_files, path_candidates, python_candidates, python_file, python_from, python_hits, python_roots, targets_of, up,
};
use crate::discover::{base_of, dir_of};
use crate::lang::Language;
use crate::paths::{above, read_from};
use crate::text::{ends, joined, parts, starts, without_leading, Chars};

verus! {

// ---------- candidates ----------

proof fn first_is_found(known: Seq<Chars>, list: Seq<Chars>, k: int, i: int)
    requires
        0 <= k <= i < list.len(),
        known.contains(list[i]),
    ensures
        first_known(known, list, k) is Some,
        (forall|j: int| k <= j < i ==> !known.contains(#[trigger] list[j])) ==> first_known(known, list, k) == Some(list[i]),
    decreases i - k,
{
    if k < i && !known.contains(list[k]) {
        first_is_found(known, list, k + 1, i);
    }
}

proof fn none_is_found(known: Seq<Chars>, list: Seq<Chars>, k: int)
    requires
        0 <= k,
        forall|j: int| k <= j < list.len() ==> !known.contains(#[trigger] list[j]),
    ensures
        first_known(known, list, k) is None,
    decreases list.len() - k,
{
    if k < list.len() {
        none_is_found(known, list, k + 1);
    }
}

// ---------- JavaScript and TypeScript ----------

/// A path without the ending of a compiled module: `x.js` and `x.jsx` are `x`, any other path is
/// itself.
pub open spec fn uncompiled(base: Chars, stem: Chars) -> bool {
    ||| base == stem + ".js"@
    ||| base == stem + ".jsx"@
    ||| base == stem && !ends(base, ".js"@) && !ends(base, ".jsx"@)
}

proof fn stem_is_uncompiled(base: Chars, stem: Chars)
    requires
        uncompiled(base, stem),
    ensures
        js_stem(base) == stem,
{
    reveal_strlit(".js");
    reveal_strlit(".jsx");
    let n = base.len() as int;
    if base == stem + ".js"@ {
        assert(base.subrange(n - 3, n) =~= ".js"@);
        assert(base.take(n - 3) =~= stem);
    } else if base == stem + ".jsx"@ {
        assert(base[n - 1] == 'x');
        if ends(base, ".js"@) {
            assert(base.subrange(n - 3, n)[2] == base[n - 1]);
        }
        assert(base.subrange(n - 4, n) =~= ".jsx"@);
        assert(base.take(n - 4) =~= stem);
    }
}

proof fn exts_are(stem: Chars)
    ensures
        each_ext(stem) == seq![
            stem + ".ts"@,
            stem + ".tsx"@,
            stem + ".js"@,
            stem + ".jsx"@,
            stem + ".mjs"@,
            stem + ".cjs"@,
            stem + ".mts"@,
        ],
{
    assert(each_ext(stem) =~= seq![
        stem + ".ts"@,
        stem + ".tsx"@,
        stem + ".js"@,
        stem + ".jsx"@,
        stem + ".mjs"@,
        stem + ".cjs"@,
        stem + ".mts"@,
    ]);
}

/// The module at `base` is the file of that very path; else the path, without the ending of a
/// compiled module, with the first ending that makes a file; else the index file of the directory
/// with the first ending that makes one; else nothing.
pub proof fn a_module_is_a_file_or_an_index(known: Seq<Chars>, base: Chars, stem: Chars)
    requires
        uncompiled(base, stem),
    ensures
        ({
            let e = seq![".ts"@, ".tsx"@, ".js"@, ".jsx"@, ".mjs"@, ".cjs"@, ".mts"@];
            let beside = exists|j: int| 0 <= j < 7 && known.contains(stem + #[trigger] e[j]);
            let r = js_file(known, base);
            &&& known.contains(base) ==> r == Some(base)
            &&& forall|i: int|
                0 <= i < 7 && !known.contains(base) && known.contains(stem + #[trigger] e[i]) && (forall|j: int|
                    0 <= j < i ==> !known.contains(stem + #[trigger] e[j])) ==> r == Some(stem + e[i])
            &&& forall|i: int|
                0 <= i < 7 && !known.contains(base) && !beside && known.contains(base + "/index"@ + #[trigger] e[i]) && (
                forall|j: int| 0 <= j < i ==> !known.contains(base + "/index"@ + #[trigger] e[j])) ==> r == Some(
                    base + "/index"@ + e[i],
                )
            &&& r is Some <==> known.contains(base) || beside || exists|j: int|
                0 <= j < 7 && known.contains(base + "/index"@ + #[trigger] e[j])
        }),
{
    let e = seq![".ts"@, ".tsx"@, ".js"@, ".jsx"@, ".mjs"@, ".cjs"@, ".mts"@];
    stem_is_uncompiled(base, stem);
    exts_are(stem);
    exts_are(base + "/index"@);
    let a = each_ext(stem);
    let b = each_ext(base + "/index"@);
    assert forall|i: int| 0 <= i < 7 implies a[i] == stem + #[trigger] e[i] && b[i] == base + "/index"@ + e[i] by {}
    assert forall|i: int| 0 <= i < 7 implies #[trigger] a[i] == stem + e[i] by {}
    assert forall|i: int| 0 <= i < 7 implies #[trigger] b[i] == base + "/index"@ + e[i] by {}
    assert forall|i: int|
        0 <= i < 7 && known.contains(stem + #[trigger] e[i]) implies first_known(known, a, 0) is Some && ((forall|j: int|
        0 <= j < i ==> !known.contains(stem + #[trigger] e[j])) ==> first_known(known, a, 0) == Some(stem + e[i])) by {
        first_is_found(known, a, 0, i);
        if forall|j: int| 0 <= j < i ==> !known.contains(stem + #[trigger] e[j]) {
            assert forall|j: int| 0 <= j < i implies !known.contains(#[trigger] a[j]) by {
                assert(!known.contains(stem + e[j]));
            }
        }
    }
    assert forall|i: int|
        0 <= i < 7 && known.contains(base + "/index"@ + #[trigger] e[i]) implies first_known(known, b, 0) is Some && ((forall|j: int|
        0 <= j < i ==> !known.contains(base + "/index"@ + #[trigger] e[j])) ==> first_known(known, b, 0) == Some(
        base + "/index"@ + e[i],
    )) by {
        first_is_found(known, b, 0, i);
        if forall|j: int| 0 <= j < i ==> !known.contains(base + "/index"@ + #[trigger] e[j]) {
            assert forall|j: int| 0 <= j < i implies !known.contains(#[trigger] b[j]) by {
                assert(!known.contains(base + "/index"@ + e[j]));
            }
        }
    }
    if !(exists|j: int| 0 <= j < 7 && known.contains(stem + #[trigger] e[j])) {
        assert forall|j: int| 0 <= j < a.len() implies !known.contains(#[trigger] a[j]) by {
            assert(!known.contains(stem + e[j]));
        }
        none_is_found(known, a, 0);
    }
    if !(exists|j: int| 0 <= j < 7 && known.contains(base + "/index"@ + #[trigger] e[j])) {
        assert forall|j: int| 0 <= j < b.len() implies !known.contains(#[trigger] b[j]) by {
            assert(!known.contains(base + "/index"@ + e[j]));
        }
        none_is_found(known, b, 0);
    }
}

/// A relative import of a JavaScript or TypeScript file names the module at the path that its
/// specifier reads as from the directory of the file: that path, that path with an ending, or the
/// index file of that directory, in this order. It names nothing only where none of these is known.
pub proof fn a_relative_import_is_found(from: Chars, lang: Language, imp: RawImportView, known: Seq<Chars>, cfg: Deps, stem: Chars)
    requires
        lang == Language::TypeScript || lang == Language::Tsx || lang == Language::JavaScript,
        starts(imp.spec, "./"@) || starts(imp.spec, "../"@) || imp.spec == "."@ || imp.spec == ".."@,
        uncompiled(read_from(dir_of(from), imp.spec), stem),
    ensures
        ({
            let base = read_from(dir_of(from), imp.spec);
            let e = seq![".ts"@, ".tsx"@, ".js"@, ".jsx"@, ".mjs"@, ".cjs"@, ".mts"@];
            let beside = exists|j: int| 0 <= j < 7 && known.contains(stem + #[trigger] e[j]);
            let r = targets_of(from, lang, imp, known, cfg);
            &&& known.contains(base) ==> r == Some(seq![base])
            &&& forall|i: int|
                0 <= i < 7 && !known.contains(base) && known.contains(stem + #[trigger] e[i]) && (forall|j: int|
                    0 <= j < i ==> !known.contains(stem + #[trigger] e[j])) ==> r == Some(seq![stem + e[i]])
            &&& forall|i: int|
                0 <= i < 7 && !known.contains(base) && !beside && known.contains(base + "/index"@ + #[trigger] e[i]) && (
                forall|j: int| 0 <= j < i ==> !known.contains(base + "/index"@ + #[trigger] e[j])) ==> r == Some(
                    seq![base + "/index"@ + e[i]],
                )
            &&& forall|i: int| 0 <= i < 7 && known.contains(base + "/index"@ + #[trigger] e[i]) ==> r is Some
            &&& r is Some <==> known.contains(base) || beside || exists|j: int|
                0 <= j < 7 && known.contains(base + "/index"@ + #[trigger] e[j])
        }),
{
    let base = read_from(dir_of(from), imp.spec);
    let e = seq![".ts"@, ".tsx"@, ".js"@, ".jsx"@, ".mjs"@, ".cjs"@, ".mts"@];
    a_module_is_a_file_or_an_index(known, base, stem);
    let bases = seq![base];
    assert(js_bases(dir_of(from), imp.spec, cfg.js_aliases.deep_view()) == Some(bases));
    assert(js_from(known, bases, 1) is None);
    assert(js_from(known, bases, 0) == js_file(known, base));
}

proof fn js_from_is_first(known: Seq<Chars>, bases: Seq<Chars>, k: int, i: int)
    requires
        0 <= k <= i < bases.len(),
        js_file(known, bases[i]) is Some,
        forall|j: int| k <= j < i ==> js_file(known, #[trigger] bases[j]) is None,
    ensures
        js_from(known, bases, k) == js_file(known, bases[i]),
    decreases i - k,
{
    if k < i {
        assert(js_file(known, bases[k]) is None);
        js_from_is_first(known, bases, k + 1, i);
    }
}

proof fn alias_is_first(aliases: Seq<(Chars, Chars)>, spec: Chars, k: int, i: int)
    requires
        0 <= k <= i < aliases.len(),
        starts(spec, aliases[i].0),
        forall|j: int| k <= j < i ==> !starts(spec, (#[trigger] aliases[j]).0),
    ensures
        alias_from(aliases, spec, k) == Some((aliases[i].1, spec.skip(aliases[i].0.len() as int))),
    decreases i - k,
{
    if k < i {
        assert(!starts(spec, aliases[k].0));
        alias_is_first(aliases, spec, k + 1, i);
    }
}

proof fn alias_is_none(aliases: Seq<(Chars, Chars)>, spec: Chars, k: int)
    requires
        0 <= k,
        forall|j: int| k <= j < aliases.len() ==> !starts(spec, (#[trigger] aliases[j]).0),
    ensures
        alias_from(aliases, spec, k) is None,
    decreases aliases.len() - k,
{
    if k < aliases.len() {
        assert(!starts(spec, aliases[k].0));
        alias_is_none(aliases, spec, k + 1);
    }
}

/// An import that starts with an alias names the module at what follows the alias, below what the
/// alias stands for, in the nearest directory at or above the file where there is one. The first
/// alias that starts the specifier counts.
pub proof fn an_alias_is_looked_for_upwards(
    from: Chars,
    lang: Language,
    imp: RawImportView,
    known: Seq<Chars>,
    cfg: Deps,
    a: int,
    rest: Chars,
    k: int,
)
    requires
        lang == Language::TypeScript || lang == Language::Tsx || lang == Language::JavaScript,
        !(starts(imp.spec, "./"@) || starts(imp.spec, "../"@) || imp.spec == "."@ || imp.spec == ".."@),
        0 <= a < cfg.js_aliases.deep_view().len(),
        imp.spec == cfg.js_aliases.deep_view()[a].0 + rest,
        forall|j: int| 0 <= j < a ==> !starts(imp.spec, (#[trigger] cfg.js_aliases.deep_view()[j]).0),
        0 <= k < above(dir_of(from)).len(),
        forall|j: int|
            0 <= j < k ==> js_file(
                known,
                read_from(read_from(#[trigger] above(dir_of(from))[j], cfg.js_aliases.deep_view()[a].1), rest),
            ) is None,
    ensures
        ({
            let base = read_from(read_from(above(dir_of(from))[k], cfg.js_aliases.deep_view()[a].1), rest);
            let r = targets_of(from, lang, imp, known, cfg);
            &&& known.contains(base) ==> r == Some(seq![base])
            &&& js_file(known, base) matches Some(f) ==> r == Some(seq![f])
        }),
{
    let aliases = cfg.js_aliases.deep_view();
    let spec = imp.spec;
    let alias = aliases[a].0;
    assert(spec.subrange(0, alias.len() as int) =~= alias);
    assert(spec.skip(alias.len() as int) =~= rest);
    alias_is_first(aliases, spec, 0, a);
    let dirs = above(dir_of(from));
    let target = aliases[a].1;
    let bases = Seq::new(dirs.len(), |i: int| read_from(read_from(dirs[i], target), rest));
    assert(js_bases(dir_of(from), spec, aliases)->0 =~= bases);
    let base = bases[k];
    if js_file(known, base) is Some {
        assert forall|j: int| 0 <= j < k implies js_file(known, #[trigger] bases[j]) is None by {
            assert(js_file(known, read_from(read_from(dirs[j], target), rest)) is None);
        }
        js_from_is_first(known, bases, 0, k);
    }
}

/// An import that is not relative and starts with no alias names nothing of the repository.
pub proof fn a_bare_import_names_nothing(from: Chars, lang: Language, imp: RawImportView, known: Seq<Chars>, cfg: Deps)
    requires
        lang == Language::TypeScript || lang == Language::Tsx || lang == Language::JavaScript,
        !(starts(imp.spec, "./"@) || starts(imp.spec, "../"@) || imp.spec == "."@ || imp.spec == ".."@),
        forall|j: int|
            0 <= j < cfg.js_aliases.deep_view().len() ==> !starts(imp.spec, (#[trigger] cfg.js_aliases.deep_view()[j]).0),
    ensures
        targets_of(from, lang, imp, known, cfg) is None,
{
    alias_is_none(cfg.js_aliases.deep_view(), imp.spec, 0);
}

// ---------- Python ----------

/// A module's path: its dots are slashes.
pub open spec fn slashed(module: Chars) -> Chars {
    Seq::new(module.len(), |i: int| if module[i] == '.' { '/' } else { module[i] })
}

/// A module has a file below a directory: its own, or the one of its package.
pub open spec fn has_module(known: Seq<Chars>, dir: Chars, module: Chars) -> bool {
    known.contains(read_from(dir, slashed(module)) + ".py"@) || known.contains(read_from(dir, slashed(module)) + "/__init__.py"@)
}

/// A Python module is its own file, else the file of its package, else nothing.
pub proof fn a_python_module_is_a_file_or_a_package(known: Seq<Chars>, dir: Chars, module: Chars)
    ensures
        ({
            let p = read_from(dir, slashed(module));
            let r = python_file(known, dir, module);
            &&& known.contains(p + ".py"@) ==> r == Some(p + ".py"@)
            &&& !known.contains(p + ".py"@) && known.contains(p + "/__init__.py"@) ==> r == Some(p + "/__init__.py"@)
            &&& r is Some <==> has_module(known, dir, module)
        }),
{
    let list = python_candidates(dir, module);
    assert(crate::text::swapped(module, '.', '/') =~= slashed(module));
    assert(list.len() == 2);
    assert(first_known(known, list, 2) is None);
    assert(first_known(known, list, 1) == (if known.contains(list[1]) { Some(list[1]) } else { None }));
}

/// The module that an import names with one of its names: below its specifier, where it has one.
pub open spec fn below(spec: Chars, name: Chars) -> Chars {
    if spec.len() == 0 {
        name
    } else {
        spec + "."@ + name
    }
}

proof fn named_files(known: Seq<Chars>, dir: Chars, spec: Chars, names: Seq<Chars>)
    ensures
        forall|f: Chars| #[trigger] name_files(known, dir, spec, names).contains(f) <==> exists|i: int|
            0 <= i < names.len() && python_file(known, dir, below(spec, #[trigger] names[i])) == Some(f),
    decreases names.len(),
{
    let all = name_files(known, dir, spec, names);
    if names.len() > 0 {
        let less = names.drop_last();
        let rest = name_files(known, dir, spec, less);
        named_files(known, dir, spec, less);
        let last = python_file(known, dir, below(spec, names.last()));
        assert forall|f: Chars| #[trigger] all.contains(f) <==> exists|i: int|
            0 <= i < names.len() && python_file(known, dir, below(spec, #[trigger] names[i])) == Some(f) by {
            assert(rest.contains(f) <==> exists|i: int|
                0 <= i < less.len() && python_file(known, dir, below(spec, #[trigger] less[i])) == Some(f));
            if rest.contains(f) {
                let x = choose|x: int| 0 <= x < rest.len() && rest[x] == f;
                assert(all[x] == f);
                let i = choose|i: int| 0 <= i < less.len() && python_file(known, dir, below(spec, #[trigger] less[i])) == Some(f);
                assert(names[i] == less[i]);
            }
            if last == Some(f) {
                assert(all[rest.len() as int] == f);
                assert(names[names.len() - 1] == names.last());
            }
            if all.contains(f) && !rest.contains(f) {
                let x = choose|x: int| 0 <= x < all.len() && all[x] == f;
                assert(x == rest.len());
            }
            if exists|i: int| 0 <= i < names.len() && python_file(known, dir, below(spec, #[trigger] names[i])) == Some(f) {
                let i = choose|i: int| 0 <= i < names.len() && python_file(known, dir, below(spec, #[trigger] names[i])) == Some(f);
                if i < less.len() {
                    assert(less[i] == names[i]);
                }
            }
        }
    }
}

/// Below a directory an import finds its module and every submodule that it names, and nothing else.
pub proof fn an_import_names_its_module_and_submodules(known: Seq<Chars>, dir: Chars, imp: RawImportView)
    ensures
        forall|f: Chars| #[trigger] python_hits(known, dir, imp).contains(f) <==> {
            ||| imp.spec.len() > 0 && python_file(known, dir, imp.spec) == Some(f)
            ||| exists|i: int|
                0 <= i < imp.names.len() && python_file(known, dir, below(imp.spec, #[trigger] imp.names[i])) == Some(f)
        },
        imp.spec.len() > 0 && python_file(known, dir, imp.spec) is Some ==> python_hits(known, dir, imp).len() > 0
            && python_hits(known, dir, imp)[0] == python_file(known, dir, imp.spec)->0,
{
    named_files(known, dir, imp.spec, imp.names);
    let rest = name_files(known, dir, imp.spec, imp.names);
    let all = python_hits(known, dir, imp);
    if imp.spec.len() > 0 {
        if let Some(g) = python_file(known, dir, imp.spec) {
            assert(all == seq![g] + rest);
            assert(all[0] == g);
            assert forall|f: Chars| #[trigger] all.contains(f) <==> f == g || rest.contains(f) by {
                if rest.contains(f) {
                    let x = choose|x: int| 0 <= x < rest.len() && rest[x] == f;
                    assert(all[x + 1] == f);
                }
                if all.contains(f) {
                    let x = choose|x: int| 0 <= x < all.len() && all[x] == f;
                    if x > 0 {
                        assert(rest[x - 1] == f);
                    }
                }
            }
        }
    }
}

/// An import names something below a directory.
pub open spec fn found_below(known: Seq<Chars>, dir: Chars, imp: RawImportView) -> bool {
    ||| imp.spec.len() > 0 && has_module(known, dir, imp.spec)
    ||| exists|i: int| 0 <= i < imp.names.len() && has_module(known, dir, below(imp.spec, #[trigger] imp.names[i]))
}

proof fn hits_are_found(known: Seq<Chars>, dir: Chars, imp: RawImportView)
    ensures
        python_hits(known, dir, imp).len() > 0 <==> found_below(known, dir, imp),
{
    an_import_names_its_module_and_submodules(known, dir, imp);
    let all = python_hits(known, dir, imp);
    a_python_module_is_a_file_or_a_package(known, dir, imp.spec);
    if all.len() > 0 {
        assert(all.contains(all[0]));
        if !(imp.spec.len() > 0 && python_file(known, dir, imp.spec) == Some(all[0])) {
            let i = choose|i: int|
                0 <= i < imp.names.len() && python_file(known, dir, below(imp.spec, #[trigger] imp.names[i])) == Some(all[0]);
            a_python_module_is_a_file_or_a_package(known, dir, below(imp.spec, imp.names[i]));
        }
    }
    if found_below(known, dir, imp) {
        if imp.spec.len() > 0 && has_module(known, dir, imp.spec) {
        } else {
            let i = choose|i: int| 0 <= i < imp.names.len() && has_module(known, dir, below(imp.spec, #[trigger] imp.names[i]));
            a_python_module_is_a_file_or_a_package(known, dir, below(imp.spec, imp.names[i]));
            let f = python_file(known, dir, below(imp.spec, imp.names[i]))->0;
            assert(all.contains(f));
        }
    }
}

proof fn python_from_is_first(known: Seq<Chars>, roots: Seq<Chars>, imp: RawImportView, k: int, i: int)
    requires
        0 <= k <= i <= roots.len(),
        forall|j: int| k <= j < i ==> !found_below(known, #[trigger] roots[j], imp),
    ensures
        i == roots.len() ==> python_from(known, roots, imp, k) is None,
        i < roots.len() && found_below(known, roots[i], imp) ==> python_from(known, roots, imp, k) == Some(
            python_hits(known, roots[i], imp),
        ),
    decreases i - k,
{
    if k < i {
        hits_are_found(known, roots[k], imp);
        assert(!found_below(known, roots[k], imp));
        python_from_is_first(known, roots, imp, k + 1, i);
    } else if i < roots.len() {
        hits_are_found(known, roots[i], imp);
    }
}

/// An absolute import is looked for in the directory of the file and those above it, the nearest
/// first, where the settings give no roots: it names what it finds in the first directory where it
/// finds anything, and nothing where there is no such directory.
pub proof fn an_absolute_import_is_looked_for_upwards(from: Chars, imp: RawImportView, known: Seq<Chars>, cfg: Deps, k: int)
    requires
        imp.level == 0,
        cfg.py_roots.deep_view().len() == 0,
        0 <= k <= above(dir_of(from)).len(),
        forall|j: int| 0 <= j < k ==> !found_below(known, #[trigger] above(dir_of(from))[j], imp),
    ensures
        ({
            let r = targets_of(from, Language::Python, imp, known, cfg);
            &&& k == above(dir_of(from)).len() ==> r is None
            &&& k < above(dir_of(from)).len() && found_below(known, above(dir_of(from))[k], imp) ==> r == Some(
                python_hits(known, above(dir_of(from))[k], imp),
            )
        }),
{
    python_from_is_first(known, above(dir_of(from)), imp, 0, k);
}

/// Where the settings give roots, an absolute import is looked for below them, in their order, and
/// nowhere else.
pub proof fn an_absolute_import_is_looked_for_below_the_roots(
    from: Chars,
    imp: RawImportView,
    known: Seq<Chars>,
    cfg: Deps,
    k: int,
)
    requires
        imp.level == 0,
        cfg.py_roots.deep_view().len() > 0,
        0 <= k <= cfg.py_roots.deep_view().len(),
        forall|j: int|
            0 <= j < k ==> !found_below(known, read_from(Seq::empty(), #[trigger] cfg.py_roots.deep_view()[j]), imp),
    ensures
        ({
            let list = cfg.py_roots.deep_view();
            let r = targets_of(from, Language::Python, imp, known, cfg);
            &&& k == list.len() ==> r is None
            &&& k < list.len() && found_below(known, read_from(Seq::empty(), list[k]), imp) ==> r == Some(
                python_hits(known, read_from(Seq::empty(), list[k]), imp),
            )
        }),
{
    let list = cfg.py_roots.deep_view();
    let roots = python_roots(from, 0, list);
    assert forall|j: int| 0 <= j < k implies !found_below(known, #[trigger] roots[j], imp) by {
        assert(!found_below(known, read_from(Seq::empty(), list[j]), imp));
    }
    python_from_is_first(known, roots, imp, 0, k);
}

/// A relative import is looked for in the package of its file alone: one dot is the directory of the
/// file, and each further dot is one directory up.
pub proof fn a_relative_import_stays_in_its_package(from: Chars, imp: RawImportView, known: Seq<Chars>, cfg: Deps)
    requires
        imp.level > 0,
    ensures
        ({
            let r = targets_of(from, Language::Python, imp, known, cfg);
            &&& imp.level == 1 ==> (r is Some <==> found_below(known, dir_of(from), imp))
            &&& imp.level == 1 && r is Some ==> r == Some(python_hits(known, dir_of(from), imp))
            &&& imp.level > 1 ==> r == targets_of(
                dir_of(from),
                Language::Python,
                (RawImportView { level: (imp.level - 1) as usize, ..imp }),
                known,
                cfg,
            )
        }),
{
    let d = up(dir_of(from), (imp.level - 1) as nat);
    let roots = python_roots(from, imp.level, cfg.py_roots.deep_view());
    assert(roots == seq![d]);
    hits_are_found(known, d, imp);
    assert(python_from(known, roots, imp, 1) is None);
    if imp.level > 1 {
        let less = RawImportView { level: (imp.level - 1) as usize, ..imp };
        assert(up(dir_of(from), (imp.level - 1) as nat) == up(dir_of(dir_of(from)), (imp.level - 2) as nat));
        assert(python_from(known, roots, less, 1) is None);
        assert(python_hits(known, d, less) == python_hits(known, d, imp));
    }
}

// ---------- Rust ----------

/// Where the modules that a file declares live: beside a crate root or a `mod.rs`, else in the
/// directory that has the name of the file.
pub open spec fn modules_home(from: Chars, stem: Chars, home: Chars) -> bool {
    let file = base_of(from);
    if file == "main.rs"@ || file == "lib.rs"@ || file == "mod.rs"@ {
        home == dir_of(from)
    } else {
        file == stem + ".rs"@ && !ends(stem, ".rs"@) && home == read_from(dir_of(from), stem)
    }
}

proof fn home_is_child_dir(from: Chars, stem: Chars, home: Chars)
    requires
        modules_home(from, stem, home),
    ensures
        crate::deps::resolve::child_dir(from) == home,
{
    let file = base_of(from);
    if !(file == "main.rs"@ || file == "lib.rs"@ || file == "mod.rs"@) {
        reveal_strlit(".rs");
        let n = file.len() as int;
        assert(file.subrange(n - 3, n) =~= ".rs"@);
        assert(file.take(n - 3) =~= stem);
        assert(crate::text::without_trailing(stem, ".rs"@) == stem);
        assert(crate::text::without_trailing(file, ".rs"@) == crate::text::without_trailing(stem, ".rs"@));
    }
}

proof fn two_candidates(known: Seq<Chars>, a: Chars, b: Chars)
    ensures
        known.contains(a) ==> first_known(known, seq![a, b], 0) == Some(a),
        !known.contains(a) && known.contains(b) ==> first_known(known, seq![a, b], 0) == Some(b),
        !known.contains(a) && !known.contains(b) ==> first_known(known, seq![a, b], 0) is None,
{
    let list = seq![a, b];
    assert(first_known(known, list, 2) is None);
    assert(first_known(known, list, 1) == (if known.contains(list[1]) { Some(list[1]) } else { None }));
}

/// `mod x;` names `x.rs` where the modules of the file live, else `x/mod.rs` there, else nothing.
pub proof fn a_mod_declaration_is_found(from: Chars, imp: RawImportView, known: Seq<Chars>, cfg: Deps, name: Chars, stem: Chars, home: Chars)
    requires
        imp.spec == "mod:"@ + name,
        modules_home(from, stem, home),
        home.len() > 0,
        home[0] != '/',
    ensures
        ({
            let a = home + "/"@ + name + ".rs"@;
            let b = home + "/"@ + name + "/mod.rs"@;
            let r = targets_of(from, Language::Rust, imp, known, cfg);
            &&& known.contains(a) ==> r == Some(seq![a])
            &&& !known.contains(a) && known.contains(b) ==> r == Some(seq![b])
            &&& !known.contains(a) && !known.contains(b) ==> r is None
        }),
{
    home_is_child_dir(from, stem, home);
    reveal_strlit("mod:");
    reveal_strlit("/");
    assert(imp.spec.subrange(0, 4) =~= "mod:"@);
    assert(imp.spec.skip(4) =~= name);
    let a = home + "/"@ + name + ".rs"@;
    let b = home + "/"@ + name + "/mod.rs"@;
    assert(a[0] == home[0] && b[0] == home[0]);
    if starts(a, "/"@) {
        assert(a.subrange(0, 1)[0] == '/');
    }
    if starts(b, "/"@) {
        assert(b.subrange(0, 1)[0] == '/');
    }
    assert(mod_candidates(home, name) =~= seq![a, b]);
    two_candidates(known, a, b);
}

/// At the root of a repository `mod x;` names `x.rs`, else `x/mod.rs`.
pub proof fn a_mod_declaration_at_the_root_is_found(from: Chars, imp: RawImportView, known: Seq<Chars>, cfg: Deps, name: Chars)
    requires
        imp.spec == "mod:"@ + name,
        modules_home(from, Seq::empty(), Seq::empty()),
        base_of(from) == "main.rs"@ || base_of(from) == "lib.rs"@ || base_of(from) == "mod.rs"@,
        name.len() > 0,
        name[0] != '/',
    ensures
        ({
            let a = name + ".rs"@;
            let b = name + "/mod.rs"@;
            let r = targets_of(from, Language::Rust, imp, known, cfg);
            &&& known.contains(a) ==> r == Some(seq![a])
            &&& !known.contains(a) && known.contains(b) ==> r == Some(seq![b])
            &&& !known.contains(a) && !known.contains(b) ==> r is None
        }),
{
    home_is_child_dir(from, Seq::empty(), Seq::empty());
    reveal_strlit("mod:");
    reveal_strlit("/");
    assert(imp.spec.subrange(0, 4) =~= "mod:"@);
    assert(imp.spec.skip(4) =~= name);
    let none = Seq::<char>::empty();
    let a = name + ".rs"@;
    let b = name + "/mod.rs"@;
    root_slash_goes(a);
    root_slash_goes(b);
    assert(none + "/"@ + name + ".rs"@ =~= "/"@ + a);
    assert(none + "/"@ + name + "/mod.rs"@ =~= "/"@ + b);
    assert(mod_candidates(none, name) =~= seq![a, b]);
    two_candidates(known, a, b);
}

proof fn root_slash_goes(s: Chars)
    requires
        s.len() > 0,
        s[0] != '/',
    ensures
        without_leading("/"@ + s, "/"@) == s,
{
    reveal_strlit("/");
    let w = "/"@ + s;
    assert(w.subrange(0, 1) =~= "/"@);
    assert(w.skip(1) =~= s);
    if starts(s, "/"@) {
        assert(s.subrange(0, 1)[0] == '/');
    }
    assert(without_leading(s, "/"@) == s);
}

proof fn crate_root_is_first(known: Seq<Chars>, dirs: Seq<Chars>, k: int, i: int)
    requires
        0 <= k <= i < dirs.len(),
        known.contains(read_from(dirs[i], "lib.rs"@)) || known.contains(read_from(dirs[i], "main.rs"@)),
        forall|j: int|
            k <= j < i ==> !known.contains(read_from(#[trigger] dirs[j], "lib.rs"@)) && !known.contains(
                read_from(dirs[j], "main.rs"@),
            ),
    ensures
        crate_root(known, dirs, k) == Some(dirs[i]),
    decreases i - k,
{
    if k < i {
        assert(!known.contains(read_from(dirs[k], "lib.rs"@)));
        crate_root_is_first(known, dirs, k + 1, i);
    }
}

proof fn longest_wins(known: Seq<Chars>, base: Chars, segs: Seq<Chars>, n: int, m: int)
    requires
        0 <= m <= n <= segs.len(),
        forall|j: int|
            m < j <= n ==> !known.contains(read_from(base, joined(#[trigger] segs.take(j), "/"@) + ".rs"@)) && !known.contains(
                read_from(base, joined(segs.take(j), "/"@) + "/mod.rs"@),
            ),
    ensures
        m == 0 ==> longest_file(known, base, segs, n) is None,
        m > 0 ==> ({
            let a = read_from(base, joined(segs.take(m), "/"@) + ".rs"@);
            let b = read_from(base, joined(segs.take(m), "/"@) + "/mod.rs"@);
            &&& known.contains(a) ==> longest_file(known, base, segs, n) == Some(a)
            &&& !known.contains(a) && known.contains(b) ==> longest_file(known, base, segs, n) == Some(b)
        }),
    decreases n,
{
    if n > 0 {
        let a = read_from(base, joined(segs.take(n), "/"@) + ".rs"@);
        let b = read_from(base, joined(segs.take(n), "/"@) + "/mod.rs"@);
        two_candidates(known, a, b);
        assert(path_candidates(base, segs, n) =~= seq![a, b]);
        if m < n {
            longest_wins(known, base, segs, n - 1, m);
        }
    }
}

proof fn inked_keeps(list: Seq<Chars>)
    requires
        forall|i: int| 0 <= i < list.len() ==> (#[trigger] list[i]).len() > 0,
    ensures
        crate::deps::resolve::inked_parts(list) == list,
    decreases list.len(),
{
    if list.len() > 0 {
        let rest = list.drop_last();
        assert forall|i: int| 0 <= i < rest.len() implies (#[trigger] rest[i]).len() > 0 by {
            assert(list[i].len() > 0);
        }
        inked_keeps(rest);
        assert(list[list.len() - 1].len() > 0);
        assert(rest.push(list.last()) =~= list);
    } else {
        assert(list =~= Seq::<Chars>::empty());
    }
}

proof fn head_is_split_off(head: Chars, rest: Chars, k: int)
    requires
        0 <= k <= head.len(),
        forall|i: int| 0 <= i < head.len() ==> head[i] != ':',
    ensures
        crate::text::find_from(head + "::"@ + rest, "::"@, k) == Some(head.len() as int),
    decreases head.len() - k,
{
    reveal_strlit("::");
    let s = head + "::"@ + rest;
    if k < head.len() {
        assert(s[k] == head[k]);
        if crate::text::stands_at(s, "::"@, k) {
            assert(s.subrange(k, k + 2)[0] == ':');
        }
        head_is_split_off(head, rest, k + 1);
    } else {
        assert(s.subrange(k, k + 2) =~= "::"@);
    }
}

/// `use crate::a::b` is looked for below the crate root, which is the nearest directory at or above
/// the file with a `lib.rs` or a `main.rs`; `use super::…` above where the modules of the file live;
/// any other path there. The longest run of leading segments that is a file, `a/b.rs` before
/// `a/b/mod.rs`, is what it names.
pub proof fn the_longest_path_is_found(
    from: Chars,
    imp: RawImportView,
    known: Seq<Chars>,
    cfg: Deps,
    head: Chars,
    rest: Chars,
    stem: Chars,
    home: Chars,
    base: Chars,
    k: int,
    m: int,
)
    requires
        imp.spec == head + "::"@ + rest,
        forall|i: int| 0 <= i < head.len() ==> head[i] != ':',
        !starts(imp.spec, "mod:"@),
        modules_home(from, stem, home),
        head == "crate"@ ==> {
            &&& 0 <= k < above(dir_of(from)).len()
            &&& base == above(dir_of(from))[k]
            &&& known.contains(read_from(base, "lib.rs"@)) || known.contains(read_from(base, "main.rs"@))
            &&& forall|j: int|
                0 <= j < k ==> !known.contains(read_from(#[trigger] above(dir_of(from))[j], "lib.rs"@)) && !known.contains(
                    read_from(above(dir_of(from))[j], "main.rs"@),
                )
        },
        head == "super"@ ==> base == dir_of(home),
        head != "crate"@ && head != "super"@ ==> base == home,
        forall|i: int| 0 <= i < parts(rest, "::"@).len() ==> (#[trigger] parts(rest, "::"@)[i]).len() > 0,
        parts(rest, "::"@).len() > 0,
        0 <= m <= parts(rest, "::"@).len(),
        forall|j: int|
            m < j <= parts(rest, "::"@).len() ==> !known.contains(
                read_from(base, joined(#[trigger] parts(rest, "::"@).take(j), "/"@) + ".rs"@),
            ) && !known.contains(read_from(base, joined(parts(rest, "::"@).take(j), "/"@) + "/mod.rs"@)),
    ensures
        ({
            let segs = parts(rest, "::"@);
            let a = read_from(base, joined(segs.take(m), "/"@) + ".rs"@);
            let b = read_from(base, joined(segs.take(m), "/"@) + "/mod.rs"@);
            let r = targets_of(from, Language::Rust, imp, known, cfg);
            &&& m == 0 ==> r is None
            &&& m > 0 && known.contains(a) ==> r == Some(seq![a])
            &&& m > 0 && !known.contains(a) && known.contains(b) ==> r == Some(seq![b])
        }),
{
    let segs = parts(rest, "::"@);
    home_is_child_dir(from, stem, home);
    head_is_split_off(head, rest, 0);
    reveal_strlit("::");
    let spec = imp.spec;
    assert(spec.take(head.len() as int) =~= head);
    assert(spec.skip(head.len() as int + 2) =~= rest);
    inked_keeps(segs);
    longest_wins(known, base, segs, segs.len() as int, m);
    if head == "crate"@ {
        crate_root_is_first(known, above(dir_of(from)), 0, k);
    } else if head == "super"@ {
        reveal_strlit("super");
        reveal_strlit("crate");
    }
}

} // verus!
