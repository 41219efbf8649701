//! What is looked at, what is unused and what is an entry point, stated over counts and settings.

use vstd::prelude::*;

use crate::config::{Dead, DeadMode, DeadShapes, DeadTestOnly};
use crate::dead::index::{context_globs, FileIndex};
use crate::dead::modes::{
    cargo_manifest, entry_from, key_targets, nearest, package_manifest, paths_in, python_manifest, targets_of, Beside,
    Entry, Family,
};
use crate::dead::report::{category_of, class_of, symbol_of, symbols_of, verdict_of, Category, Verdict};
use crate::dead::shapes::{field_shape, implements, sites_of, type_checked, variant_shape, ShapeKind};
use crate::dead::walk::{Def, MemberDef, Visibility};
use crate::lang::Language;
use crate::names::RefCount;
use crate::text::{starts, without_leading, Chars};
use crate::tree::{child_of, Nodes};

verus! {

proof fn kinds_differ()
    ensures
        "fn"@.len() == 2,
        "method"@.len() == 6,
        "method"@[0] == 'm',
        "struct"@.len() == 6,
        "struct"@[0] == 's',
        "struct"@[2] == 'r',
        "enum"@.len() == 4,
        "enum"@[0] == 'e',
        "union"@.len() == 5,
        "union"@[0] == 'u',
        "trait"@.len() == 5,
        "trait"@[0] == 't',
        "type"@.len() == 4,
        "type"@[0] == 't',
        "class"@.len() == 5,
        "class"@[0] == 'c',
        "class"@[1] == 'l',
        "interface"@.len() == 9,
        "const"@.len() == 5,
        "const"@[0] == 'c',
        "const"@[1] == 'o',
        "static"@.len() == 6,
        "static"@[0] == 's',
        "static"@[2] == 'a',
        "var"@.len() == 3,
        "var"@[0] == 'v',
        "mod"@.len() == 3,
        "mod"@[0] == 'm',
        "other"@.len() == 5,
        "other"@[0] == 'o',
{
    reveal_strlit("fn");
    reveal_strlit("method");
    reveal_strlit("struct");
    reveal_strlit("enum");
    reveal_strlit("union");
    reveal_strlit("trait");
    reveal_strlit("type");
    reveal_strlit("class");
    reveal_strlit("interface");
    reveal_strlit("const");
    reveal_strlit("static");
    reveal_strlit("var");
    reveal_strlit("mod");
    reveal_strlit("other");
}

// ---------- what is looked at ----------

/// A definition belongs to one class, by its kind.
pub proof fn each_kind_has_its_class(kind: Chars)
    ensures
        class_of(kind) == "fn"@ <==> kind == "fn"@ || kind == "method"@,
        class_of(kind) == "type"@ <==> kind == "struct"@ || kind == "enum"@ || kind == "union"@ || kind == "trait"@ || kind == "type"@ || kind
            == "class"@ || kind == "interface"@,
        class_of(kind) == "const"@ <==> kind == "const"@ || kind == "static"@ || kind == "var"@,
        class_of(kind) == "mod"@ <==> kind == "mod"@,
{
    kinds_differ();
}

/// A language is checked where the settings name it; TypeScript and JavaScript only in application
/// mode.
pub open spec fn is_checked(lang: Language, cfg: Dead) -> bool {
    let names = cfg.symbols.languages.deep_view();
    match lang {
        Language::Rust => names.contains("rust"@),
        Language::Python => names.contains("python"@),
        _ => names.contains("typescript"@) && cfg.symbols.mode == DeadMode::Application,
    }
}

/// A definition is not looked at where it is private or in a test; it is unchecked where its language
/// is not checked; and it is a candidate exactly where it is neither, nothing exempts it, it is no
/// part of a library's surface or an entry point, and the settings take its kind, length and name.
pub proof fn a_candidate_is_seen_checked_and_not_exempt(d: Def, lang: Language, res: (DeadMode, bool, bool), cfg: Dead)
    ensures
        ({
            let v = verdict_of(d, lang, res, cfg);
            let unseen = d.in_test || d.visibility == Visibility::Private;
            let surface = res.0 == DeadMode::Library && (d.visibility == Visibility::Public || res.1);
            let taken = cfg.symbols.kinds.deep_view().contains(class_of(d.kind@)) && d.end_line + 1 - d.start_line >= cfg.symbols.min_lines;
            let skipped = cfg.symbols.skip_names.deep_view().contains(d.name@) || exists|k: int|
                0 <= k < cfg.symbols.skip_name_prefixes.deep_view().len() && starts(d.name@, #[trigger] cfg.symbols.skip_name_prefixes.deep_view()[k]);
            &&& v == Verdict::Unseen <==> unseen
            &&& v == Verdict::Unchecked <==> !unseen && d.exempt is None && !is_checked(lang, cfg)
            &&& v == Verdict::Candidate <==> !unseen && d.exempt is None && is_checked(lang, cfg) && !surface && !res.2 && taken && !skipped
        }),
{
}

proof fn candidate_is_listed(files: Seq<FileIndex>, path: Chars, lang: Language, defs: Seq<Def>, res: (DeadMode, bool, bool), cfg: Dead, k: int)
    requires
        0 <= k < defs.len(),
        verdict_of(defs[k], lang, res, cfg) == Verdict::Candidate,
    ensures
        symbols_of(files, path, lang, defs, res, cfg).contains(symbol_of(files, path, defs[k], cfg)),
    decreases defs.len(),
{
    let rest = symbols_of(files, path, lang, defs.drop_last(), res, cfg);
    let all = symbols_of(files, path, lang, defs, res, cfg);
    let want = symbol_of(files, path, defs[k], cfg);
    if k == defs.len() - 1 {
        assert(all[rest.len() as int] == want);
    } else {
        candidate_is_listed(files, path, lang, defs.drop_last(), res, cfg, k);
        let x = choose|x: int| 0 <= x < rest.len() && rest[x] == want;
        assert(all[x] == want);
    }
}

/// Every candidate is a symbol, under its name and on its lines.
pub proof fn every_candidate_is_a_symbol(
    files: Seq<FileIndex>,
    path: Chars,
    lang: Language,
    defs: Seq<Def>,
    res: (DeadMode, bool, bool),
    cfg: Dead,
    k: int,
)
    requires
        0 <= k < defs.len(),
        verdict_of(defs[k], lang, res, cfg) == Verdict::Candidate,
    ensures
        exists|x: int|
            0 <= x < symbols_of(files, path, lang, defs, res, cfg).len() && (#[trigger] symbols_of(files, path, lang, defs, res, cfg)[x]).name
                == defs[k].name@ && symbols_of(files, path, lang, defs, res, cfg)[x].start_line == defs[k].start_line && symbols_of(
                files,
                path,
                lang,
                defs,
                res,
                cfg,
            )[x].end_line == defs[k].end_line,
{
    candidate_is_listed(files, path, lang, defs, res, cfg, k);
    let all = symbols_of(files, path, lang, defs, res, cfg);
    let x = choose|x: int| 0 <= x < all.len() && all[x] == symbol_of(files, path, defs[k], cfg);
    assert(all[x].name == defs[k].name@);
}

/// A symbol is reachable where production code elsewhere uses it, or where too few tests do to call it
/// test-only; exported too far where only its own file does; dead where nothing does; test-only where
/// tests alone do; and ambiguous where another definition shares the name of what would be dead or
/// test-only.
pub proof fn a_category_is_by_who_uses(ext: RefCount, own: RefCount, samename: nat, cfg: Dead)
    requires
        own.test + ext.test <= u32::MAX,
    ensures
        ({
            let c = category_of(ext, own, samename, cfg);
            let unused = ext.prod == 0 && own.prod == 0;
            let tests = own.test + ext.test;
            let told = cfg.test_only.enabled && tests >= cfg.test_only.min_external_test_refs;
            &&& c == Category::Overexported <==> ext.prod == 0 && own.prod > 0
            &&& c == Category::Dead <==> unused && tests == 0 && samename == 1
            &&& c == Category::TestOnly <==> unused && tests > 0 && told && samename == 1
            &&& c == Category::Ambiguous <==> unused && samename != 1 && (tests == 0 || told)
            &&& c == Category::Reachable <==> ext.prod > 0 || unused && tests > 0 && !told
        }),
{
}

// ---------- fields and variants ----------

/// A field of a checked type is reported exactly where nothing reads its name, the name has no leading
/// `_` and no derive of the type hands its fields on.
pub proof fn an_unread_field_is_reported(files: Seq<FileIndex>, f: FileIndex, m: MemberDef, cfg: DeadShapes)
    requires
        m.type_idx < f.shapes.types.len(),
    ensures
        ({
            let t = f.shapes.types@[m.type_idx as int];
            let r = field_shape(files, f, m, cfg);
            let read = exists|k: int| 0 <= k < files.len() && (#[trigger] files[k]).shapes.field_reads.deep_view().contains(m.name@);
            let handed_on = exists|k: int|
                0 <= k < t.derives.deep_view().len() && cfg.serializing_derives.deep_view().contains(#[trigger] t.derives.deep_view()[k]);
            &&& r is Some <==> type_checked(files, f.path@, t, cfg) && !(m.name@.len() > 0 && m.name@[0] == '_') && !handed_on && !read
            &&& r matches Some(s) ==> s.kind == ShapeKind::Field && s.owner == t.name@ && s.name == m.name@ && s.line == m.line
        }),
{
    reveal_strlit("_");
    let s = m.name@;
    if s.len() > 0 && s[0] == '_' {
        assert(s.subrange(0, 1) =~= "_"@);
    } else if starts(s, "_"@) {
        assert(s.subrange(0, 1)[0] == '_');
    }
}

/// A variant of a checked type that nothing builds is reported: where something matches it only if the
/// settings ask for that, where nothing does only if the type is not open-ended. A type with a default
/// or one of the exempt traits is left alone.
pub proof fn an_unbuilt_variant_is_reported(files: Seq<FileIndex>, f: FileIndex, m: MemberDef, cfg: DeadShapes)
    requires
        m.type_idx < f.shapes.types.len(),
    ensures
        ({
            let t = f.shapes.types@[m.type_idx as int];
            let r = variant_shape(files, f, m, cfg);
            let matched = sites_of(files, m.name@, false).len() > 0;
            let open_ended = t.attrs.deep_view().contains("non_exhaustive"@);
            let looked_at = type_checked(files, f.path@, t, cfg) && !t.derives.deep_view().contains("Default"@) && !implements(
                files,
                t.name@,
                cfg.exempt_impl_traits.deep_view(),
            );
            let built = (exists|k: int| 0 <= k < files.len() && (#[trigger] files[k]).shapes.variant_ctors.deep_view().contains(m.name@))
                || exists|k: int|
                0 <= k < files.len() && (#[trigger] files[k]).shapes.wildcard_uses.deep_view().contains(t.name@) && (files[k].refs.of(m.name@).prod
                    > 0 || files[k].refs.of(m.name@).test > 0);
            &&& r is Some <==> looked_at && !built && (if matched {
                cfg.report_handled_never_produced && !(open_ended && cfg.non_exhaustive_hides_handled)
            } else {
                !open_ended
            })
            &&& r matches Some(s) ==> s.kind == ShapeKind::Variant && s.owner == t.name@ && s.name == m.name@ && s.line == m.line
        }),
{
}

/// A type is checked outside tests, where its derives and attributes let it be, and where other files
/// reach it if the settings ask for that.
pub proof fn a_checked_type_is_reached(files: Seq<FileIndex>, path: Chars, t: crate::dead::walk::TypeDef, cfg: DeadShapes)
    requires
        type_checked(files, path, t, cfg),
    ensures
        !t.in_test,
        cfg.require_type_reachable ==> crate::dead::index::refs_beyond(files, t.name@, path).prod > 0,
        forall|k: int| 0 <= k < t.attrs.deep_view().len() ==> !cfg.skip_attrs.deep_view().contains(#[trigger] t.attrs.deep_view()[k]),
{
}

// ---------- libraries and applications ----------

/// A package with a binary is an application; one with a library and no binary is a library; one with
/// neither is an application.
pub proof fn a_cargo_package_is_by_its_targets(t: Nodes, dir: Chars, beside: Beside, cfg: Dead)
    requires
        t.len() > 0,
    ensures
        ({
            let bin = beside.main_file || beside.bin_dir || (child_of(t, 0, "bin"@) matches Some(b) && t[b as int].kind == "array"@
                && t[b as int].children.len() > 0);
            let lib = beside.lib_file || child_of(t, 0, "lib"@) is Some;
            cargo_manifest(t, dir, beside, cfg).mode == DeadMode::Library <==> lib && !bin
        }),
{
}

proof fn path_is_listed(t: Nodes, kids: Seq<usize>, k: int, p: usize)
    requires
        0 <= k < kids.len(),
        kids[k] < t.len(),
        child_of(t, kids[k] as int, "path"@) == Some(p),
        t[p as int].kind == "string"@,
    ensures
        paths_in(t, kids).contains(without_leading(t[p as int].text, "./"@)),
    decreases kids.len(),
{
    let rest = paths_in(t, kids.drop_last());
    let all = paths_in(t, kids);
    let want = without_leading(t[p as int].text, "./"@);
    if k == kids.len() - 1 {
        assert(all[rest.len() as int] == want);
    } else {
        path_is_listed(t, kids.drop_last(), k, p);
        let x = choose|x: int| 0 <= x < rest.len() && rest[x] == want;
        assert(all[x] == want);
    }
}

/// The file of each binary that a manifest names is among the globs of its entry points.
pub proof fn a_named_binary_is_an_entry_point(t: Nodes, dir: Chars, beside: Beside, cfg: Dead, b: usize, k: int, p: usize)
    requires
        t.len() > 0,
        child_of(t, 0, "bin"@) == Some(b),
        t[b as int].kind == "array"@,
        0 <= k < t[b as int].children.len(),
        t[b as int].children[k] < t.len(),
        child_of(t, t[b as int].children[k] as int, "path"@) == Some(p),
        t[p as int].kind == "string"@,
    ensures
        exists|globs: Seq<Chars>|
            cargo_manifest(t, dir, beside, cfg).entrypoints == #[trigger] crate::globs::kept_globs(globs) && globs.contains(
                without_leading(t[p as int].text, "./"@),
            ),
{
    let kids = t[b as int].children;
    path_is_listed(t, kids, k, p);
    let own = cfg.symbols.entrypoints.deep_view();
    let more = paths_in(t, kids);
    let x = choose|x: int| 0 <= x < more.len() && more[x] == without_leading(t[p as int].text, "./"@);
    let globs = own + more;
    assert(globs[own.len() + x] == more[x]);
    assert(cargo_manifest(t, dir, beside, cfg).entrypoints == crate::globs::kept_globs(globs));
}

/// A Python project with scripts is an application, one without is a library.
pub proof fn a_python_project_is_by_its_scripts(t: Nodes, dir: Chars, cfg: Dead)
    requires
        t.len() > 0,
    ensures
        python_manifest(t, dir, cfg).mode == DeadMode::Application <==> (child_of(t, 0, "project"@) matches Some(p) && p < t.len() && child_of(
            t,
            p as int,
            "scripts"@,
        ) is Some),
{
}

/// A JavaScript package with exports is a library, one without is an application.
pub proof fn a_package_is_by_its_exports(t: Nodes, dir: Chars, cfg: Dead)
    requires
        t.len() > 0,
    ensures
        package_manifest(t, dir, cfg).mode == DeadMode::Library <==> child_of(t, 0, "exports"@) is Some,
{
}

/// What `exports`, `main`, `module`, `types` or `bin` of a package leads to is part of its surface.
pub proof fn what_a_package_names_is_its_surface(t: Nodes, dir: Chars, cfg: Dead, key: Chars, file: Chars)
    requires
        key == "exports"@ || key == "main"@ || key == "module"@ || key == "types"@ || key == "bin"@,
        key_targets(t, key).contains(file),
    ensures
        exists|globs: Seq<Chars>|
            package_manifest(t, dir, cfg).api_roots == #[trigger] crate::globs::kept_globs(globs) && globs.contains(file),
{
    let own = cfg.symbols.api_roots.deep_view();
    let a = key_targets(t, "exports"@);
    let b = key_targets(t, "main"@);
    let c = key_targets(t, "module"@);
    let d = key_targets(t, "types"@);
    let e = key_targets(t, "bin"@);
    let globs = own + a + b + c + d + e;
    let mine = key_targets(t, key);
    let x = choose|x: int| 0 <= x < mine.len() && mine[x] == file;
    if key == "exports"@ {
        assert(globs[own.len() + x] == file);
    } else if key == "main"@ {
        assert(globs[own.len() + a.len() + x] == file);
    } else if key == "module"@ {
        assert(globs[own.len() + a.len() + b.len() + x] == file);
    } else if key == "types"@ {
        assert(globs[own.len() + a.len() + b.len() + c.len() + x] == file);
    } else {
        assert(globs[own.len() + a.len() + b.len() + c.len() + d.len() + x] == file);
    }
    assert(package_manifest(t, dir, cfg).api_roots == crate::globs::kept_globs(globs));
}

/// A built file stands for the source it is built from: `dist/x.js` for `src/x.ts` and its like, and so
/// for the other built endings; any other file stands for itself.
pub proof fn a_built_file_stands_for_its_source(stem: Chars, ending: Chars)
    requires
        ending == ".js"@ || ending == ".mjs"@ || ending == ".cjs"@ || ending == ".d.ts"@,
    ensures
        ({
            let s = "src/"@ + stem;
            targets_of("dist/"@ + stem + ending) == seq![s + ".ts"@, s + ".tsx"@, s + ".mts"@, s + ".js"@]
        }),
{
    reveal_strlit(".js");
    reveal_strlit(".mjs");
    reveal_strlit(".cjs");
    reveal_strlit(".d.ts");
    reveal_strlit("dist/");
    reveal_strlit("src/");
    reveal_strlit("./");
    let full = "dist/"@ + stem + ending;
    assert(full[0] == 'd');
    if starts(full, "./"@) {
        assert(full.subrange(0, 2)[0] == '.');
    }
    assert(without_leading(full, "./"@) == full);
    assert(full.subrange(0, 5) =~= "dist/"@);
    let src = "src/"@ + full.skip(5);
    assert(full.skip(5) =~= stem + ending);
    let s = "src/"@ + stem;
    assert(src =~= s + ending);
    let n = src.len() as int;
    let m = s.len() as int;
    if ending == ".js"@ {
        assert(src.subrange(n - 3, n) =~= ".js"@);
        assert(src.take(n - 3) =~= s);
    } else if ending == ".mjs"@ {
        if crate::text::ends(src, ".js"@) {
            assert(src.subrange(n - 3, n)[0] == src[m + 1]);
            assert(src[m + 1] == 'm');
        }
        assert(src.subrange(n - 4, n) =~= ".mjs"@);
        assert(src.take(n - 4) =~= s);
    } else if ending == ".cjs"@ {
        if crate::text::ends(src, ".js"@) {
            assert(src.subrange(n - 3, n)[0] == src[m + 1]);
            assert(src[m + 1] == 'c');
        }
        if crate::text::ends(src, ".mjs"@) {
            assert(src.subrange(n - 4, n)[1] == src[m + 1]);
            assert(src[m + 1] == 'c');
        }
        assert(src.subrange(n - 4, n) =~= ".cjs"@);
        assert(src.take(n - 4) =~= s);
    } else {
        assert(src[n - 2] == 't');
        if crate::text::ends(src, ".js"@) {
            assert(src.subrange(n - 3, n)[1] == src[n - 2]);
        }
        if crate::text::ends(src, ".mjs"@) {
            assert(src.subrange(n - 4, n)[2] == src[n - 2]);
        }
        if crate::text::ends(src, ".cjs"@) {
            assert(src.subrange(n - 4, n)[2] == src[n - 2]);
        }
        assert(src.subrange(n - 5, n) =~= ".d.ts"@);
        assert(src.take(n - 5) =~= s);
    }
}

/// The manifest of a file is that of the nearest directory above it that has one of its family.
pub proof fn the_nearest_manifest_is_found(entries: Seq<Entry>, dir: Chars, name: Chars, fam: Family)
    requires
        crate::laws::is_part(name),
        name.len() > 0,
    ensures
        entry_from(entries, dir + "/"@ + name, fam, 0) matches Some(k) ==> nearest(entries, dir + "/"@ + name, fam) == Some(k),
        entry_from(entries, dir + "/"@ + name, fam, 0) is None ==> nearest(entries, dir + "/"@ + name, fam) == nearest(entries, dir, fam),
        entry_from(entries, name, fam, 0) is None ==> nearest(entries, name, fam) == nearest(entries, Seq::empty(), fam),
        nearest(entries, Seq::empty(), fam) == entry_from(entries, Seq::empty(), fam, 0),
{
    reveal_strlit("/");
    crate::laws::a_path_is_its_directory_and_its_name(dir, name);
}

/// A file that an extra glob names is read as a test whatever the rest says; one that a bench glob
/// names is unless benches are taken for production.
pub proof fn benches_are_tests_unless_told_otherwise(cfg: DeadTestOnly, glob: Chars)
    ensures
        cfg.extra_test_globs.deep_view().contains(glob) ==> context_globs(cfg).contains(glob),
        !cfg.treat_benches_as_prod && cfg.bench_globs.deep_view().contains(glob) ==> context_globs(cfg).contains(glob),
        context_globs(cfg).contains(glob) && !cfg.extra_test_globs.deep_view().contains(glob) ==> !cfg.treat_benches_as_prod
            && cfg.bench_globs.deep_view().contains(glob),
{
    let a = cfg.extra_test_globs.deep_view();
    let b = cfg.bench_globs.deep_view();
    let all = context_globs(cfg);
    if a.contains(glob) {
        let k = choose|k: int| 0 <= k < a.len() && a[k] == glob;
        assert(all[k] == glob);
    }
    if !cfg.treat_benches_as_prod && b.contains(glob) {
        let k = choose|k: int| 0 <= k < b.len() && b[k] == glob;
        assert(all[a.len() + k] == glob);
    }
    if all.contains(glob) && !a.contains(glob) {
        let k = choose|k: int| 0 <= k < all.len() && all[k] == glob;
        if k < a.len() {
            assert(a[k] == glob);
        } else {
            assert(b[k - a.len()] == glob);
        }
    }
}

} // verus!
