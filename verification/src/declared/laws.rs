//! What a manifest declares and what is found unused, stated over its tables and the files.

use vstd::prelude::*;

use crate::declared::manifest::{
    all_deps, bin_paths, consumed_by, dep_of, deps_of, entries, keys_in, manifest_in, path_features, required,
    sections_of, target_deps, DepView, ManifestView,
};
use crate::declared::orphans::{
    checked_upto, dep_refs, dep_step, deps_upto, left_out, orphan_of, refs_grow, refs_stay, silencer, CheckedView,
    OrphanView, PassView,
};
use crate::declared::scope::{home_of, nearest_upto, package_of, scope_of, scope_upto};
use crate::declared::side::{refs_in, SideView};
use crate::docs::{elements, root_of, string_at, strings_in, under};
use crate::globs::glob_hit;
use crate::names::no_refs;
use crate::paths::{joined_path, normal};
use crate::text::{ends, starts, without_leading, Chars};
use crate::tree::{child_of, Nodes};

verus! {

// ---------- dependencies ----------

/// A section is named: a table of dependencies at the root of a manifest, or one of a target.
pub open spec fn names_section(prefix: Chars) -> bool {
    prefix.len() == 0 || ends(prefix, "'."@)
}

proof fn section_tells(prefix: Chars)
    requires
        names_section(prefix),
    ensures
        !ends(prefix + "dependencies"@, "dev-dependencies"@),
        !ends(prefix + "build-dependencies"@, "dev-dependencies"@),
        ends(prefix + "dev-dependencies"@, "dev-dependencies"@),
{
    reveal_strlit("dependencies");
    reveal_strlit("build-dependencies");
    reveal_strlit("dev-dependencies");
    reveal_strlit("'.");
    let a = prefix + "dependencies"@;
    let b = prefix + "build-dependencies"@;
    let c = prefix + "dev-dependencies"@;
    let n = prefix.len() as int;
    if ends(a, "dev-dependencies"@) {
        assert(n >= 4);
        assert(prefix.subrange(n - 2, n)[1] == '.');
        assert(a[n - 1] == '.');
        assert(a.subrange(n - 4, n + 12)[3] == a[n - 1]);
    }
    if ends(b, "dev-dependencies"@) {
        assert(b.subrange(n + 2, n + 18)[2] == b[n + 4]);
        assert(b[n + 4] == 'd');
    }
    assert(c.subrange(n, n + 16) =~= "dev-dependencies"@);
}

/// Each dependency is a dev one exactly where its section ends in `dev-dependencies`.
spec fn dev_by_section(list: Seq<DepView>) -> bool {
    forall|k: int| 0 <= k < list.len() ==> (#[trigger] list[k]).dev == ends(list[k].section, "dev-dependencies"@)
}

proof fn sections_are_by_name(t: Nodes, at: Option<usize>, prefix: Chars, found: Seq<((Chars, Chars), usize)>)
    requires
        names_section(prefix),
    ensures
        dev_by_section(sections_of(t, at, prefix, found)),
{
    section_tells(prefix);
    let a = deps_of(t, entries(t, under(t, at, "dependencies"@)), prefix + "dependencies"@, false, found);
    let b = deps_of(t, entries(t, under(t, at, "build-dependencies"@)), prefix + "build-dependencies"@, false, found);
    let c = deps_of(t, entries(t, under(t, at, "dev-dependencies"@)), prefix + "dev-dependencies"@, true, found);
    let all = sections_of(t, at, prefix, found);
    assert forall|k: int| 0 <= k < all.len() implies (#[trigger] all[k]).dev == ends(all[k].section, "dev-dependencies"@) by {
        if k < a.len() {
            assert(all[k] == a[k]);
        } else if k < a.len() + b.len() {
            assert(all[k] == b[k - a.len()]);
        } else {
            assert(all[k] == c[k - a.len() - b.len()]);
        }
    }
}

proof fn target_names_section(name: Chars)
    ensures
        names_section("target.'"@ + name + "'."@),
{
    reveal_strlit("'.");
    reveal_strlit("target.'");
    let p = "target.'"@ + name + "'."@;
    assert(p.subrange(p.len() - 2, p.len() as int) =~= "'."@);
}

proof fn targets_are_by_name(t: Nodes, kids: Seq<usize>, found: Seq<((Chars, Chars), usize)>)
    ensures
        dev_by_section(target_deps(t, kids, found)),
    decreases kids.len(),
{
    if kids.len() > 0 {
        targets_are_by_name(t, kids.drop_last(), found);
        let prefix = "target.'"@ + t[kids.last() as int].field + "'."@;
        target_names_section(t[kids.last() as int].field);
        sections_are_by_name(t, Some(kids.last()), prefix, found);
        let a = target_deps(t, kids.drop_last(), found);
        let b = sections_of(t, Some(kids.last()), prefix, found);
        let all = target_deps(t, kids, found);
        assert forall|k: int| 0 <= k < all.len() implies (#[trigger] all[k]).dev == ends(all[k].section, "dev-dependencies"@) by {
            if k < a.len() {
                assert(all[k] == a[k]);
            } else {
                assert(all[k] == b[k - a.len()]);
            }
        }
    }
}

/// A dependency is a dev one exactly where its section ends in `dev-dependencies`; those of
/// `[dependencies]` and `[build-dependencies]` are not.
pub proof fn a_dependency_is_dev_by_its_section(t: Nodes, rel: Chars, text: Chars)
    ensures
        forall|k: int|
            0 <= k < manifest_in(t, rel, text).deps.len() ==> (#[trigger] manifest_in(t, rel, text).deps[k]).dev == ends(
                manifest_in(t, rel, text).deps[k].section,
                "dev-dependencies"@,
            ),
{
    let found = keys_in(text);
    let a = sections_of(t, root_of(t), Seq::empty(), found);
    let b = target_deps(t, entries(t, under(t, root_of(t), "target"@)), found);
    sections_are_by_name(t, root_of(t), Seq::empty(), found);
    targets_are_by_name(t, entries(t, under(t, root_of(t), "target"@)), found);
    let all = all_deps(t, found);
    assert forall|k: int| 0 <= k < all.len() implies (#[trigger] all[k]).dev == ends(all[k].section, "dev-dependencies"@) by {
        if k < a.len() {
            assert(all[k] == a[k]);
        } else {
            assert(all[k] == b[k - a.len()]);
        }
    }
}

/// A dependency is what an entry of a table says: named by its key, in code with `_` for `-`, and
/// optional, inherited from the workspace or renamed where the entry says so.
pub open spec fn says_entry(t: Nodes, c: usize, section: Chars, dev: bool, d: DepView) -> bool {
    let name = t[c as int].field;
    &&& d.name == name
    &&& d.ident == Seq::new(name.len(), |i: int| if name[i] == '-' { '_' } else { name[i] })
    &&& d.section == section
    &&& d.dev == dev
    &&& d.optional == (child_of(t, c as int, "optional"@) matches Some(x) && t[x as int].kind == "boolean"@ && t[x as int].text
        == "true"@)
    &&& d.workspace == (child_of(t, c as int, "workspace"@) matches Some(x) && t[x as int].kind == "boolean"@ && t[x as int].text
        == "true"@)
    &&& d.package == match child_of(t, c as int, "package"@) {
        Some(x) => if t[x as int].kind == "string"@ { Some(t[x as int].text) } else { None },
        None => None,
    }
}

proof fn entry_is_listed(t: Nodes, at: usize, key: Chars, prefix: Chars, dev: bool, found: Seq<((Chars, Chars), usize)>, s: usize, x: int)
    requires
        at < t.len(),
        key == "dependencies"@ && !dev || key == "build-dependencies"@ && !dev || key == "dev-dependencies"@ && dev,
        child_of(t, at as int, key) == Some(s),
        t[s as int].kind == "table"@,
        0 <= x < t[s as int].children.len(),
        t[s as int].children[x] < t.len(),
    ensures
        exists|k: int|
            0 <= k < sections_of(t, Some(at), prefix, found).len() && says_entry(
                t,
                t[s as int].children[x],
                prefix + key,
                dev,
                #[trigger] sections_of(t, Some(at), prefix, found)[k],
            ),
{
    reveal_strlit("dependencies");
    reveal_strlit("build-dependencies");
    reveal_strlit("dev-dependencies");
    assert("dependencies"@.len() == 12 && "build-dependencies"@.len() == 18 && "dev-dependencies"@.len() == 16);
    let a = deps_of(t, entries(t, under(t, Some(at), "dependencies"@)), prefix + "dependencies"@, false, found);
    let b = deps_of(t, entries(t, under(t, Some(at), "build-dependencies"@)), prefix + "build-dependencies"@, false, found);
    let c = deps_of(t, entries(t, under(t, Some(at), "dev-dependencies"@)), prefix + "dev-dependencies"@, true, found);
    let all = sections_of(t, Some(at), prefix, found);
    let kid = t[s as int].children[x];
    let d = dep_of(t, kid, prefix + key, dev, found);
    let name = t[kid as int].field;
    assert(crate::text::swapped(name, '-', '_') =~= Seq::new(name.len(), |i: int| if name[i] == '-' { '_' } else { name[i] }));
    assert(says_entry(t, kid, prefix + key, dev, d));
    if key == "dependencies"@ {
        assert(all[x] == a[x]);
    } else if key == "build-dependencies"@ {
        assert(all[a.len() + x] == b[x]);
    } else {
        assert(all[a.len() + b.len() + x] == c[x]);
    }
}

/// Every entry of `[dependencies]`, `[build-dependencies]` and `[dev-dependencies]` is a dependency of
/// its section, and only the last ones are dev.
pub proof fn every_entry_is_a_dependency(t: Nodes, rel: Chars, text: Chars, key: Chars, s: usize, x: int)
    requires
        t.len() > 0,
        key == "dependencies"@ || key == "build-dependencies"@ || key == "dev-dependencies"@,
        child_of(t, 0, key) == Some(s),
        t[s as int].kind == "table"@,
        0 <= x < t[s as int].children.len(),
        t[s as int].children[x] < t.len(),
    ensures
        exists|k: int|
            0 <= k < manifest_in(t, rel, text).deps.len() && says_entry(
                t,
                t[s as int].children[x],
                key,
                key == "dev-dependencies"@,
                #[trigger] manifest_in(t, rel, text).deps[k],
            ),
{
    reveal_strlit("dependencies");
    reveal_strlit("build-dependencies");
    reveal_strlit("dev-dependencies");
    assert("dependencies"@.len() == 12 && "build-dependencies"@.len() == 18 && "dev-dependencies"@.len() == 16);
    let found = keys_in(text);
    let dev = key == "dev-dependencies"@;
    let none = Seq::<char>::empty();
    entry_is_listed(t, 0, key, none, dev, found, s, x);
    assert(none + key =~= key);
    let a = sections_of(t, Some(0usize), none, found);
    let k = choose|k: int| 0 <= k < a.len() && says_entry(t, t[s as int].children[x], none + key, dev, #[trigger] a[k]);
    let all = manifest_in(t, rel, text).deps;
    assert(all[k] == a[k]);
    assert(says_entry(t, t[s as int].children[x], key, dev, all[k]));
}

proof fn target_entry_is_listed(t: Nodes, kids: Seq<usize>, found: Seq<((Chars, Chars), usize)>, y: int, key: Chars, s: usize, x: int)
    requires
        0 <= y < kids.len(),
        kids[y] < t.len(),
        key == "dependencies"@ || key == "build-dependencies"@ || key == "dev-dependencies"@,
        child_of(t, kids[y] as int, key) == Some(s),
        t[s as int].kind == "table"@,
        0 <= x < t[s as int].children.len(),
        t[s as int].children[x] < t.len(),
    ensures
        exists|k: int|
            0 <= k < target_deps(t, kids, found).len() && says_entry(
                t,
                t[s as int].children[x],
                "target.'"@ + t[kids[y] as int].field + "'."@ + key,
                key == "dev-dependencies"@,
                #[trigger] target_deps(t, kids, found)[k],
            ),
    decreases kids.len(),
{
    reveal_strlit("dependencies");
    reveal_strlit("build-dependencies");
    reveal_strlit("dev-dependencies");
    assert("dependencies"@.len() == 12 && "build-dependencies"@.len() == 18 && "dev-dependencies"@.len() == 16);
    let less = kids.drop_last();
    let a = target_deps(t, less, found);
    let prefix = "target.'"@ + t[kids.last() as int].field + "'."@;
    let b = sections_of(t, Some(kids.last()), prefix, found);
    let all = target_deps(t, kids, found);
    let section = "target.'"@ + t[kids[y] as int].field + "'."@ + key;
    let dev = key == "dev-dependencies"@;
    if y < less.len() {
        assert(less[y] == kids[y]);
        target_entry_is_listed(t, less, found, y, key, s, x);
        let k = choose|k: int| 0 <= k < a.len() && says_entry(t, t[s as int].children[x], section, dev, #[trigger] a[k]);
        assert(all[k] == a[k]);
    } else {
        entry_is_listed(t, kids[y], key, prefix, dev, found, s, x);
        let k = choose|k: int| 0 <= k < b.len() && says_entry(t, t[s as int].children[x], prefix + key, dev, #[trigger] b[k]);
        assert(all[a.len() + k] == b[k]);
    }
}

/// The dependencies of a target count like those of the manifest: every entry of the three tables of
/// every target is one.
pub proof fn every_entry_of_a_target_is_a_dependency(
    t: Nodes,
    rel: Chars,
    text: Chars,
    targets: usize,
    y: int,
    key: Chars,
    s: usize,
    x: int,
)
    requires
        t.len() > 0,
        child_of(t, 0, "target"@) == Some(targets),
        t[targets as int].kind == "table"@,
        0 <= y < t[targets as int].children.len(),
        t[targets as int].children[y] < t.len(),
        key == "dependencies"@ || key == "build-dependencies"@ || key == "dev-dependencies"@,
        child_of(t, t[targets as int].children[y] as int, key) == Some(s),
        t[s as int].kind == "table"@,
        0 <= x < t[s as int].children.len(),
        t[s as int].children[x] < t.len(),
    ensures
        exists|k: int|
            0 <= k < manifest_in(t, rel, text).deps.len() && says_entry(
                t,
                t[s as int].children[x],
                "target.'"@ + t[t[targets as int].children[y] as int].field + "'."@ + key,
                key == "dev-dependencies"@,
                #[trigger] manifest_in(t, rel, text).deps[k],
            ),
{
    let found = keys_in(text);
    let kids = t[targets as int].children;
    target_entry_is_listed(t, kids, found, y, key, s, x);
    let section = "target.'"@ + t[kids[y] as int].field + "'."@ + key;
    let dev = key == "dev-dependencies"@;
    let a = sections_of(t, root_of(t), Seq::empty(), found);
    let b = target_deps(t, kids, found);
    let k = choose|k: int| 0 <= k < b.len() && says_entry(t, t[s as int].children[x], section, dev, #[trigger] b[k]);
    let all = manifest_in(t, rel, text).deps;
    assert(all == a + b);
    assert(all[a.len() + k] == b[k]);
}

// ---------- features ----------

/// Every entry of `[features]` is a feature, which turns on the strings of its array.
pub proof fn every_feature_is_declared(t: Nodes, rel: Chars, text: Chars, s: usize, x: int)
    requires
        t.len() > 0,
        child_of(t, 0, "features"@) == Some(s),
        t[s as int].kind == "table"@,
        0 <= x < t[s as int].children.len(),
    ensures
        ({
            let list = manifest_in(t, rel, text).features;
            let c = t[s as int].children[x];
            &&& list.len() == t[s as int].children.len()
            &&& list[x].name == t[c as int].field
            &&& t[c as int].kind == "array"@ ==> list[x].elements == strings_in(t, t[c as int].children)
        }),
{
}

proof fn required_is_listed(t: Nodes, kids: Seq<usize>, y: int, s: Chars)
    requires
        0 <= y < kids.len(),
        strings_in(t, elements(t, under(t, Some(kids[y]), "required-features"@))).contains(s),
    ensures
        required(t, kids).contains(s),
    decreases kids.len(),
{
    let rest = required(t, kids.drop_last());
    let last = strings_in(t, elements(t, under(t, Some(kids.last()), "required-features"@)));
    let all = required(t, kids);
    if y < kids.len() - 1 {
        assert(kids.drop_last()[y] == kids[y]);
        required_is_listed(t, kids.drop_last(), y, s);
        let k = choose|k: int| 0 <= k < rest.len() && rest[k] == s;
        assert(all[k] == s);
    } else {
        let k = choose|k: int| 0 <= k < last.len() && last[k] == s;
        assert(all[rest.len() + k] == s);
    }
}

/// What a binary, an example, a test or a bench requires is consumed.
pub proof fn a_required_feature_is_consumed(t: Nodes, rel: Chars, text: Chars, key: Chars, s: usize, y: int, name: Chars)
    requires
        t.len() > 0,
        key == "bin"@ || key == "example"@ || key == "test"@ || key == "bench"@,
        child_of(t, 0, key) == Some(s),
        t[s as int].kind == "array"@,
        0 <= y < t[s as int].children.len(),
        strings_in(t, elements(t, under(t, Some(t[s as int].children[y]), "required-features"@))).contains(name),
    ensures
        manifest_in(t, rel, text).consumers.contains(name),
{
    let root = root_of(t);
    required_is_listed(t, t[s as int].children, y, name);
    let a = required(t, elements(t, under(t, root, "bin"@)));
    let b = required(t, elements(t, under(t, root, "example"@)));
    let c = required(t, elements(t, under(t, root, "test"@)));
    let d = required(t, elements(t, under(t, root, "bench"@)));
    let all = consumed_by(t);
    let mine = required(t, t[s as int].children);
    let k = choose|k: int| 0 <= k < mine.len() && mine[k] == name;
    if key == "bin"@ {
        assert(mine == a);
        assert(all[k] == name);
    } else if key == "example"@ {
        assert(mine == b);
        assert(all[a.len() + k] == name);
    } else if key == "test"@ {
        assert(mine == c);
        assert(all[a.len() + b.len() + k] == name);
    } else {
        assert(mine == d);
        assert(all[a.len() + b.len() + c.len() + k] == name);
    }
}

// ---------- targets, paths and the workspace ----------

/// A manifest has a binary where it lists one.
pub proof fn a_listed_binary_is_a_binary(t: Nodes, rel: Chars, text: Chars)
    requires
        t.len() > 0,
    ensures
        manifest_in(t, rel, text).has_bin <==> (child_of(t, 0, "bin"@) matches Some(b) && t[b as int].kind == "array"@ && t[b as int].children.len()
            > 0),
{
}

proof fn bin_path_is_listed(t: Nodes, kids: Seq<usize>, dir: Chars, k: int, p: usize)
    requires
        0 <= k < kids.len(),
        kids[k] < t.len(),
        child_of(t, kids[k] as int, "path"@) == Some(p),
        t[p as int].kind == "string"@,
    ensures
        bin_paths(t, kids, dir).contains(joined_path(dir, without_leading(t[p as int].text, "./"@))),
    decreases kids.len(),
{
    let rest = bin_paths(t, kids.drop_last(), dir);
    let all = bin_paths(t, kids, dir);
    let want = joined_path(dir, without_leading(t[p as int].text, "./"@));
    if k == kids.len() - 1 {
        assert(all[rest.len() as int] == want);
    } else {
        bin_path_is_listed(t, kids.drop_last(), dir, k, p);
        let x = choose|x: int| 0 <= x < rest.len() && rest[x] == want;
        assert(all[x] == rest[x]);
    }
}

/// The root files of a package are `src/main.rs`, the file of its library, `src/lib.rs` where it names
/// none, and the file of each binary that it names, all below its directory.
pub proof fn a_package_has_its_root_files(t: Nodes, name: Chars, dir: Chars, text: Chars)
    requires
        t.len() > 0,
        crate::laws::is_part(name),
        dir.len() > 0,
    ensures
        ({
            let m = manifest_in(t, dir + "/"@ + name, text);
            &&& m.dir == dir
            &&& m.root_files.contains(dir + "/"@ + "src/main.rs"@)
            &&& child_of(t, 0, "lib"@) is None ==> m.root_files.contains(dir + "/"@ + without_leading("src/lib.rs"@, "./"@))
            &&& child_of(t, 0, "lib"@) matches Some(l) ==> (l < t.len() ==> (child_of(t, l as int, "path"@) matches Some(p) ==> (t[p as int].kind
                == "string"@ ==> m.root_files.contains(dir + "/"@ + without_leading(t[p as int].text, "./"@)))))
        }),
{
    crate::laws::a_path_is_its_directory_and_its_name(dir, name);
    let m = manifest_in(t, dir + "/"@ + name, text);
    assert(m.dir == dir);
    let list = m.root_files;
    let n = list.len() as int;
    assert(list[n - 1] == dir + "/"@ + "src/main.rs"@);
    let lib = match string_at(t, under(t, under(t, root_of(t), "lib"@), "path"@)) {
        Some(p) => p,
        None => "src/lib.rs"@,
    };
    assert(list[n - 2] == dir + "/"@ + without_leading(lib, "./"@));
    assert(list.contains(list[n - 1]));
    assert(list.contains(list[n - 2]));
}

/// The file of each binary that a package names is one of its root files.
pub proof fn a_named_binary_is_a_root_file(t: Nodes, name: Chars, dir: Chars, text: Chars, b: usize, k: int, p: usize)
    requires
        t.len() > 0,
        crate::laws::is_part(name),
        dir.len() > 0,
        child_of(t, 0, "bin"@) == Some(b),
        t[b as int].kind == "array"@,
        0 <= k < t[b as int].children.len(),
        t[b as int].children[k] < t.len(),
        child_of(t, t[b as int].children[k] as int, "path"@) == Some(p),
        t[p as int].kind == "string"@,
    ensures
        manifest_in(t, dir + "/"@ + name, text).root_files.contains(dir + "/"@ + without_leading(t[p as int].text, "./"@)),
{
    crate::laws::a_path_is_its_directory_and_its_name(dir, name);
    let kids = t[b as int].children;
    bin_path_is_listed(t, kids, dir, k, p);
    let bins = bin_paths(t, kids, dir);
    let want = dir + "/"@ + without_leading(t[p as int].text, "./"@);
    let x = choose|x: int| 0 <= x < bins.len() && bins[x] == want;
    assert(manifest_in(t, dir + "/"@ + name, text).root_files[x] == want);
}

proof fn path_feature_is_listed(t: Nodes, kids: Seq<usize>, dir: Chars, k: int, p: usize, feats: Seq<Chars>)
    requires
        0 <= k < kids.len(),
        kids[k] < t.len(),
        child_of(t, kids[k] as int, "path"@) == Some(p),
        t[p as int].kind == "string"@,
        feats == strings_in(t, elements(t, under(t, Some(kids[k]), "features"@))),
        feats.len() > 0,
    ensures
        path_features(t, kids, dir).contains((normal(joined_path(dir, t[p as int].text)), feats)),
    decreases kids.len(),
{
    let rest = path_features(t, kids.drop_last(), dir);
    let all = path_features(t, kids, dir);
    let want = (normal(joined_path(dir, t[p as int].text)), feats);
    if k == kids.len() - 1 {
        assert(all[rest.len() as int] == want);
    } else {
        path_feature_is_listed(t, kids.drop_last(), dir, k, p, feats);
        let x = choose|x: int| 0 <= x < rest.len() && rest[x] == want;
        assert(all[x] == rest[x]);
    }
}

/// A dependency by path that turns features on is noted, from each of the three tables.
pub proof fn a_path_dependency_turns_features_on(
    t: Nodes,
    rel: Chars,
    text: Chars,
    key: Chars,
    s: usize,
    k: int,
    p: usize,
    feats: Seq<Chars>,
)
    requires
        t.len() > 0,
        key == "dependencies"@ || key == "build-dependencies"@ || key == "dev-dependencies"@,
        child_of(t, 0, key) == Some(s),
        t[s as int].kind == "table"@,
        0 <= k < t[s as int].children.len(),
        t[s as int].children[k] < t.len(),
        child_of(t, t[s as int].children[k] as int, "path"@) == Some(p),
        t[p as int].kind == "string"@,
        feats == strings_in(t, elements(t, under(t, Some(t[s as int].children[k]), "features"@))),
        feats.len() > 0,
    ensures
        manifest_in(t, rel, text).path_dep_features.contains((normal(joined_path(manifest_in(t, rel, text).dir, t[p as int].text)), feats)),
{
    let m = manifest_in(t, rel, text);
    let root = root_of(t);
    let kids = t[s as int].children;
    path_feature_is_listed(t, kids, m.dir, k, p, feats);
    let a = path_features(t, entries(t, under(t, root, "dependencies"@)), m.dir);
    let b = path_features(t, entries(t, under(t, root, "build-dependencies"@)), m.dir);
    let c = path_features(t, entries(t, under(t, root, "dev-dependencies"@)), m.dir);
    let mine = path_features(t, kids, m.dir);
    let want = (normal(joined_path(m.dir, t[p as int].text)), feats);
    let x = choose|x: int| 0 <= x < mine.len() && mine[x] == want;
    assert(m.path_dep_features == a + b + c);
    if key == "dependencies"@ {
        assert(m.path_dep_features[x] == want);
    } else if key == "build-dependencies"@ {
        assert(m.path_dep_features[a.len() + x] == want);
    } else {
        assert(m.path_dep_features[a.len() + b.len() + x] == want);
    }
}

/// A dependency that states its package has it; one that neither states it nor inherits has none.
pub proof fn a_stated_package_is_the_package(ms: Seq<ManifestView>, i: int, d: DepView)
    ensures
        d.package is Some ==> package_of(ms, i, d) == d.package,
        d.package is None && !d.workspace ==> package_of(ms, i, d) is None,
{
}

// ---------- the files of a manifest ----------

/// A path stands below a directory, or the directory is the root.
pub open spec fn under_dir(path: Chars, dir: Chars) -> bool {
    dir.len() == 0 || starts(path, dir + "/"@)
}

/// Manifest `i` is the nearest one above a path: of the deepest directories the last.
pub open spec fn is_nearest(ms: Seq<ManifestView>, path: Chars, i: int) -> bool {
    &&& 0 <= i < ms.len()
    &&& under_dir(path, ms[i].dir)
    &&& forall|j: int|
        0 <= j < ms.len() && under_dir(path, (#[trigger] ms[j]).dir) ==> ms[j].dir.len() < ms[i].dir.len() || (ms[j].dir.len()
            == ms[i].dir.len() && j <= i)
}

proof fn nearest_is_best(ms: Seq<ManifestView>, path: Chars, n: int)
    requires
        0 <= n <= ms.len(),
    ensures
        match nearest_upto(ms, path, n) {
            Some(i) => {
                &&& 0 <= i < n
                &&& under_dir(path, ms[i].dir)
                &&& forall|j: int|
                    0 <= j < n && under_dir(path, (#[trigger] ms[j]).dir) ==> ms[j].dir.len() < ms[i].dir.len() || (ms[j].dir.len()
                        == ms[i].dir.len() && j <= i)
            },
            None => forall|j: int| 0 <= j < n ==> !under_dir(path, (#[trigger] ms[j]).dir),
        },
    decreases n,
{
    if n > 0 {
        nearest_is_best(ms, path, n - 1);
    }
}

proof fn scope_lists(ms: Seq<ManifestView>, sides: Seq<SideView>, i: int, n: int)
    requires
        0 <= n <= sides.len() <= usize::MAX,
    ensures
        forall|k: int| 0 <= k < n && home_of(ms, #[trigger] sides[k]) == Some(i) ==> scope_upto(ms, sides, i, n).contains(k as usize),
        forall|x: int|
            0 <= x < scope_upto(ms, sides, i, n).len() ==> (#[trigger] scope_upto(ms, sides, i, n)[x]) < n && home_of(
                ms,
                sides[scope_upto(ms, sides, i, n)[x] as int],
            ) == Some(i),
    decreases n,
{
    if n > 0 {
        scope_lists(ms, sides, i, n - 1);
        let less = scope_upto(ms, sides, i, n - 1);
        let all = scope_upto(ms, sides, i, n);
        assert forall|k: int| 0 <= k < n && home_of(ms, #[trigger] sides[k]) == Some(i) implies all.contains(k as usize) by {
            if k < n - 1 {
                assert(less.contains(k as usize));
                let x = choose|x: int| 0 <= x < less.len() && less[x] == k as usize;
                assert(all[x] == k as usize);
            } else {
                assert(all[less.len() as int] == k as usize);
            }
        }
        assert forall|x: int| 0 <= x < all.len() implies (#[trigger] all[x]) < n && home_of(ms, sides[all[x] as int]) == Some(i) by {
            if x < less.len() {
                assert(all[x] == less[x]);
            }
        }
    }
}

/// A manifest's files are the Rust files of which it is the nearest manifest.
pub proof fn a_manifest_has_the_files_nearest_to_it(ms: Seq<ManifestView>, sides: Seq<SideView>, i: int, k: int)
    requires
        sides.len() <= usize::MAX,
        0 <= k < sides.len(),
    ensures
        scope_of(ms, sides, i).contains(k as usize) <==> sides[k].rust && is_nearest(ms, sides[k].path, i),
{
    scope_lists(ms, sides, i, sides.len() as int);
    nearest_is_best(ms, sides[k].path, ms.len() as int);
    let scope = scope_of(ms, sides, i);
    if scope.contains(k as usize) {
        let x = choose|x: int| 0 <= x < scope.len() && scope[x] == k as usize;
        assert(home_of(ms, sides[scope[x] as int]) == Some(i));
    }
    if sides[k].rust && is_nearest(ms, sides[k].path, i) {
        match nearest_upto(ms, sides[k].path, ms.len() as int) {
            Some(j) => {
                assert(ms[j].dir.len() <= ms[i].dir.len());
            },
            None => {},
        }
        assert(home_of(ms, sides[k]) == Some(i));
    }
}

// ---------- orphans ----------

/// No file of a manifest refers to a name.
pub open spec fn unreferred(p: PassView, i: int, ident: Chars) -> bool {
    forall|k: int|
        0 <= k < p.sides.len() && (#[trigger] p.sides[k]).rust && is_nearest(p.manifests, p.sides[k].path, i) ==> refs_in(
            p.sides[k].crate_refs,
            ident,
        ) == no_refs()
}

/// A dependency is declared for its side effect: a glob of the settings matches its name, or that of
/// the package it stands for.
pub open spec fn effect_matches(p: PassView, i: int, d: DepView) -> bool {
    ||| glob_hit(p.cfg.side_effect_deps.deep_view(), d.name)
    ||| package_of(p.manifests, i, d) matches Some(x) && glob_hit(p.cfg.side_effect_deps.deep_view(), x)
}

proof fn orphans_stay(p: PassView, i: int, sil: Option<(Chars, usize)>, c: CheckedView, m: int, n: int)
    requires
        0 <= m <= n,
    ensures
        deps_upto(p, i, sil, c, m).orphans.len() <= deps_upto(p, i, sil, c, n).orphans.len(),
        forall|x: int|
            0 <= x < deps_upto(p, i, sil, c, m).orphans.len() ==> #[trigger] deps_upto(p, i, sil, c, n).orphans[x] == deps_upto(
                p,
                i,
                sil,
                c,
                m,
            ).orphans[x],
    decreases n - m,
{
    if m < n {
        orphans_stay(p, i, sil, c, m, n - 1);
    }
}

proof fn all_orphans_stay(p: PassView, m: int, n: int)
    requires
        0 <= m <= n,
    ensures
        checked_upto(p, m).orphans.len() <= checked_upto(p, n).orphans.len(),
        forall|x: int|
            0 <= x < checked_upto(p, m).orphans.len() ==> #[trigger] checked_upto(p, n).orphans[x] == checked_upto(p, m).orphans[x],
    decreases n - m,
{
    if m < n {
        all_orphans_stay(p, m, n - 1);
        let i = n - 1;
        if !left_out(p, i) {
            let before = checked_upto(p, i);
            let sil = silencer(p, i);
            let c = match sil {
                Some((f, l)) => CheckedView {
                    silenced: before.silenced.push(f + ":"@ + crate::text::digits(l as nat)),
                    ..before
                },
                None => before,
            };
            let k = p.manifests[i];
            let start = CheckedView { deps: crate::text::capped_size((c.deps + k.deps.len()) as nat), ..c };
            orphans_stay(p, i, sil, start, 0, k.deps.len() as int);
            assert(deps_upto(p, i, sil, start, 0) == start);
        }
    }
}

/// Under settings that leave dev dependencies unchecked, each dependency that is not a dev one, that
/// no file of its manifest refers to and that is not declared for its side effect is an orphan. With
/// settings that check them, so is a dev one.
pub proof fn an_unreferred_dependency_is_an_orphan(p: PassView, i: int, j: int)
    requires
        0 <= i < p.manifests.len(),
        0 <= j < p.manifests[i].deps.len(),
        p.sides.len() <= usize::MAX,
        !p.manifests[i].deps[j].dev || p.cfg.check_dev_dependencies,
        !effect_matches(p, i, p.manifests[i].deps[j]),
        !left_out(p, i),
        unreferred(p, i, p.manifests[i].deps[j].ident),
    ensures
        exists|x: int|
            0 <= x < checked_upto(p, p.manifests.len() as int).orphans.len() && (#[trigger] checked_upto(
                p,
                p.manifests.len() as int,
            ).orphans[x]).name == p.manifests[i].deps[j].name && checked_upto(p, p.manifests.len() as int).orphans[x].manifest
                == p.manifests[i].path && checked_upto(p, p.manifests.len() as int).orphans[x].section == p.manifests[i].deps[j].section
                && checked_upto(p, p.manifests.len() as int).orphans[x].line == p.manifests[i].deps[j].line,
{
    let m = p.manifests[i];
    let d = m.deps[j];
    let before = checked_upto(p, i);
    let sil = silencer(p, i);
    let c = match sil {
        Some((f, l)) => CheckedView { silenced: before.silenced.push(f + ":"@ + crate::text::digits(l as nat)), ..before },
        None => before,
    };
    let start = CheckedView { deps: crate::text::capped_size((c.deps + m.deps.len()) as nat), ..c };
    let scope = scope_of(p.manifests, p.sides, i);
    assert forall|k: int| 0 <= k < scope.len() implies refs_in(p.sides[#[trigger] scope[k] as int].crate_refs, d.ident) == no_refs() by {
        scope_lists(p.manifests, p.sides, i, p.sides.len() as int);
        assert(scope.contains(scope[k]));
        a_manifest_has_the_files_nearest_to_it(p.manifests, p.sides, i, scope[k] as int);
    }
    refs_stay(p, scope, d.ident, scope.len() as int);
    let was = deps_upto(p, i, sil, start, j);
    let now = deps_upto(p, i, sil, start, j + 1);
    assert(now == dep_step(p, i, d, sil, was));
    let x = was.orphans.len() as int;
    assert(now.orphans[x] == orphan_of(p, i, d, sil));
    orphans_stay(p, i, sil, start, j + 1, m.deps.len() as int);
    let here = deps_upto(p, i, sil, start, m.deps.len() as int);
    assert(here.orphans[x] == now.orphans[x]);
    assert(checked_upto(p, i + 1) == here);
    all_orphans_stay(p, i + 1, p.manifests.len() as int);
    assert(checked_upto(p, p.manifests.len() as int).orphans[x] == here.orphans[x]);
}

/// An orphan is a checked dependency of a manifest that no file of it refers to.
pub open spec fn rightly_orphaned(p: PassView, o: OrphanView, n: int) -> bool {
    exists|i: int, j: int| {
        &&& 0 <= i < n
        &&& 0 <= j < p.manifests[i].deps.len()
        &&& o.name == (#[trigger] p.manifests[i].deps[j]).name
        &&& o.manifest == p.manifests[i].path
        &&& !p.manifests[i].deps[j].dev || p.cfg.check_dev_dependencies
        &&& !effect_matches(p, i, p.manifests[i].deps[j])
        &&& unreferred(p, i, p.manifests[i].deps[j].ident)
    }
}

proof fn deps_orphan_rightly(p: PassView, i: int, sil: Option<(Chars, usize)>, c: CheckedView, n: int)
    requires
        0 <= i < p.manifests.len(),
        0 <= n <= p.manifests[i].deps.len(),
        p.sides.len() <= usize::MAX,
        forall|x: int| 0 <= x < c.orphans.len() ==> rightly_orphaned(p, #[trigger] c.orphans[x], i + 1),
    ensures
        forall|x: int|
            0 <= x < deps_upto(p, i, sil, c, n).orphans.len() ==> rightly_orphaned(
                p,
                #[trigger] deps_upto(p, i, sil, c, n).orphans[x],
                i + 1,
            ),
    decreases n,
{
    if n > 0 {
        deps_orphan_rightly(p, i, sil, c, n - 1);
        let was = deps_upto(p, i, sil, c, n - 1);
        let now = deps_upto(p, i, sil, c, n);
        let d = p.manifests[i].deps[n - 1];
        assert forall|x: int| 0 <= x < now.orphans.len() implies rightly_orphaned(p, #[trigger] now.orphans[x], i + 1) by {
            if x < was.orphans.len() {
                assert(now.orphans[x] == was.orphans[x]);
            } else {
                let scope = scope_of(p.manifests, p.sides, i);
                assert(dep_refs(p, scope, d.ident, scope.len() as int).0 == no_refs());
                assert forall|k: int|
                    0 <= k < p.sides.len() && (#[trigger] p.sides[k]).rust && is_nearest(p.manifests, p.sides[k].path, i) implies refs_in(
                    p.sides[k].crate_refs,
                    d.ident,
                ) == no_refs() by {
                    a_manifest_has_the_files_nearest_to_it(p.manifests, p.sides, i, k);
                    let y = choose|y: int| 0 <= y < scope.len() && scope[y] == k as usize;
                    if refs_in(p.sides[k].crate_refs, d.ident) != no_refs() {
                        refs_grow(p, scope, d.ident, y, scope.len() as int);
                    }
                }
                assert(now.orphans[x] == orphan_of(p, i, d, sil));
                assert(unreferred(p, i, p.manifests[i].deps[n - 1].ident));
            }
        }
    }
}

/// Nothing else is an orphan.
pub proof fn every_orphan_is_unreferred(p: PassView, n: int)
    requires
        0 <= n <= p.manifests.len(),
        p.sides.len() <= usize::MAX,
    ensures
        forall|x: int|
            0 <= x < checked_upto(p, n).orphans.len() ==> rightly_orphaned(p, #[trigger] checked_upto(p, n).orphans[x], n),
    decreases n,
{
    if n > 0 {
        every_orphan_is_unreferred(p, n - 1);
        let i = n - 1;
        let before = checked_upto(p, i);
        assert forall|x: int| 0 <= x < before.orphans.len() implies rightly_orphaned(p, #[trigger] before.orphans[x], n) by {
            assert(rightly_orphaned(p, before.orphans[x], i));
        }
        if !left_out(p, i) {
            let sil = silencer(p, i);
            let c = match sil {
                Some((f, l)) => CheckedView {
                    silenced: before.silenced.push(f + ":"@ + crate::text::digits(l as nat)),
                    ..before
                },
                None => before,
            };
            let m = p.manifests[i];
            let start = CheckedView { deps: crate::text::capped_size((c.deps + m.deps.len()) as nat), ..c };
            deps_orphan_rightly(p, i, sil, start, m.deps.len() as int);
        }
    }
}

/// An entry of `[dependencies]` or `[build-dependencies]` of a manifest that no file of it refers to,
/// and that no glob of the settings takes for a side effect, is an orphan.
pub proof fn an_unreferred_entry_is_an_orphan(
    p: PassView,
    i: int,
    t: Nodes,
    rel: Chars,
    text: Chars,
    key: Chars,
    s: usize,
    x: int,
)
    requires
        0 <= i < p.manifests.len(),
        p.manifests[i] == manifest_in(t, rel, text),
        p.sides.len() <= usize::MAX,
        !left_out(p, i),
        t.len() > 0,
        key == "dependencies"@ || key == "build-dependencies"@,
        child_of(t, 0, key) == Some(s),
        t[s as int].kind == "table"@,
        0 <= x < t[s as int].children.len(),
        t[s as int].children[x] < t.len(),
        ({
            let name = t[t[s as int].children[x] as int].field;
            let ident = Seq::new(name.len(), |i: int| if name[i] == '-' { '_' } else { name[i] });
            &&& unreferred(p, i, ident)
            &&& forall|d: DepView|
                says_entry(t, t[s as int].children[x], key, false, d) ==> !#[trigger] effect_matches(p, i, d)
        }),
    ensures
        exists|o: int|
            0 <= o < checked_upto(p, p.manifests.len() as int).orphans.len() && (#[trigger] checked_upto(
                p,
                p.manifests.len() as int,
            ).orphans[o]).name == t[t[s as int].children[x] as int].field && checked_upto(p, p.manifests.len() as int).orphans[o].manifest
                == rel && checked_upto(p, p.manifests.len() as int).orphans[o].section == key,
{
    reveal_strlit("dependencies");
    reveal_strlit("build-dependencies");
    reveal_strlit("dev-dependencies");
    assert("dependencies"@.len() == 12 && "build-dependencies"@.len() == 18 && "dev-dependencies"@.len() == 16);
    every_entry_is_a_dependency(t, rel, text, key, s, x);
    let deps = manifest_in(t, rel, text).deps;
    let j = choose|j: int| 0 <= j < deps.len() && says_entry(t, t[s as int].children[x], key, false, #[trigger] deps[j]);
    let name = t[t[s as int].children[x] as int].field;
    let ident = Seq::new(name.len(), |i: int| if name[i] == '-' { '_' } else { name[i] });
    assert(deps[j].ident == ident);
    assert(!effect_matches(p, i, deps[j]));
    an_unreferred_dependency_is_an_orphan(p, i, j);
}

} // verus!
