//! Which files a manifest speaks for, and what manifests say of each other.

use vstd::prelude::*;

use crate::declared::manifest::{Manifest, ManifestView};
use crate::declared::side::{FileSide, SideView};
use crate::declared::words::{dirs_of, either, first_known, join_or, mod_files, resolve_mod, scope_dirs};
use crate::paths::{beneath, is_beneath, join_dir, joined_path};
use crate::text::{
    as_int, chars, ends, ends_with, list_has, plus, put, same, strip_end, stripped_end, Chars,
};

verus! {

// ---------- workspaces ----------

/// Where `name` stands among the workspace dependencies, from `k` on.
pub open spec fn workspace_place(list: Seq<(Chars, Option<Chars>)>, name: Chars, k: int) -> Option<int>
    decreases list.len() - k,
{
    if k < 0 || k >= list.len() {
        None
    } else if list[k].0 == name {
        Some(k)
    } else {
        workspace_place(list, name, k + 1)
    }
}

fn place_in(list: &Vec<(String, Option<String>)>, name: &str) -> (r: Option<usize>)
    ensures
        as_int(r) == workspace_place(list.deep_view(), name@, 0),
        r matches Some(k) ==> k < list.len(),
{
    let ghost view = list.deep_view();
    let mut k: usize = 0;
    while k < list.len()
        invariant
            k <= list.len(),
            view == list.deep_view(),
            workspace_place(view, name@, 0) == workspace_place(view, name@, k as int),
        decreases list.len() - k,
    {
        assert(view[k as int] == list@[k as int].deep_view());
        if same(list[k].0.as_str(), name) {
            return Some(k);
        }
        k = k + 1;
    }
    None
}

/// The directory of a member is `dir` or below it.
pub open spec fn at_or_below(member: Chars, dir: Chars) -> bool {
    dir.len() == 0 || member == dir || beneath(member, dir)
}

/// The nearest of the first `n` manifests at or above `member` that declares `name` under
/// `[workspace.dependencies]`; the later of two that are equally near.
pub open spec fn owner_upto(ms: Seq<ManifestView>, member: Chars, name: Chars, n: int) -> Option<int>
    decreases n,
{
    if n <= 0 {
        None
    } else {
        let best = owner_upto(ms, member, name, n - 1);
        let m = ms[n - 1];
        if at_or_below(member, m.dir) && workspace_place(m.workspace_deps, name, 0) is Some && (match best {
            Some(b) => m.dir.len() >= ms[b].dir.len(),
            None => true,
        }) {
            Some(n - 1)
        } else {
            best
        }
    }
}

/// The registry name of a dependency: its own, else what the nearest workspace table that declares
/// it renames.
pub open spec fn package_of(ms: Seq<ManifestView>, i: int, d: crate::declared::manifest::DepView) -> Option<Chars> {
    if d.package is Some || !d.workspace {
        d.package
    } else {
        match owner_upto(ms, ms[i].dir, d.name, ms.len() as int) {
            Some(o) => match workspace_place(ms[o].workspace_deps, d.name, 0) {
                Some(k) => ms[o].workspace_deps[k].1,
                None => None,
            },
            None => None,
        }
    }
}

fn owner(ms: &Vec<Manifest>, member: &str, name: &str) -> (r: Option<usize>)
    ensures
        as_int(r) == owner_upto(ms.deep_view(), member@, name@, ms.len() as int),
        r matches Some(o) ==> o < ms.len(),
{
    let ghost view = ms.deep_view();
    let mut best: Option<usize> = None;
    let mut k: usize = 0;
    while k < ms.len()
        invariant
            k <= ms.len(),
            view == ms.deep_view(),
            as_int(best) == owner_upto(view, member@, name@, k as int),
            best matches Some(o) ==> o < k,
        decreases ms.len() - k,
    {
        assert(view[k as int] == ms@[k as int].deep_view());
        let dir = ms[k].dir.as_str();
        if (dir.is_empty() || same(member, dir) || is_beneath(member, dir)) && place_in(&ms[k].workspace_deps, name).is_some() {
            let nearer = match best {
                Some(b) => {
                    assert(view[b as int] == ms@[b as int].deep_view());
                    chars(dir).len() >= chars(ms[b].dir.as_str()).len()
                },
                None => true,
            };
            if nearer {
                best = Some(k);
            }
        }
        k = k + 1;
    }
    best
}

fn copy_opt(s: &Option<String>) -> (r: Option<String>)
    ensures
        r.deep_view() == s.deep_view(),
{
    match s {
        Some(x) => Some(x.clone()),
        None => None,
    }
}

/// The registry name of dependency `j` of manifest `i`.
pub fn registry_name(ms: &Vec<Manifest>, i: usize, j: usize) -> (r: Option<String>)
    requires
        i < ms.len(),
        j < ms@[i as int].deps.len(),
    ensures
        r.deep_view() == package_of(ms.deep_view(), i as int, ms@[i as int].deps@[j as int].deep_view()),
{
    let ghost view = ms.deep_view();
    assert(view[i as int] == ms@[i as int].deep_view());
    let d = &ms[i].deps[j];
    if d.package.is_some() || !d.workspace {
        return copy_opt(&d.package);
    }
    match owner(ms, ms[i].dir.as_str(), d.name.as_str()) {
        Some(o) => {
            assert(view[o as int] == ms@[o as int].deep_view());
            match place_in(&ms[o].workspace_deps, d.name.as_str()) {
                Some(k) => {
                    assert(view[o as int].workspace_deps[k as int] == ms@[o as int].workspace_deps@[k as int].deep_view());
                    copy_opt(&ms[o].workspace_deps[k].1)
                },
                None => None,
            }
        },
        None => None,
    }
}

// ---------- features enabled from outside ----------

/// The last of the first `n` manifests in `dir`.
pub open spec fn dir_place(ms: Seq<ManifestView>, dir: Chars, n: int) -> Option<int>
    decreases n,
{
    if n <= 0 {
        None
    } else if ms[n - 1].dir == dir {
        Some(n - 1)
    } else {
        dir_place(ms, dir, n - 1)
    }
}

/// `path`, once for each time `feats` names `feature`.
pub open spec fn once_each(feats: Seq<Chars>, feature: Chars, path: Chars) -> Seq<Chars>
    decreases feats.len(),
{
    if feats.len() == 0 {
        Seq::empty()
    } else if feats.last() == feature {
        once_each(feats.drop_last(), feature, path).push(path)
    } else {
        once_each(feats.drop_last(), feature, path)
    }
}

/// How often path dependencies of a manifest at `path` enable `feature` of manifest `i`.
pub open spec fn enables(ms: Seq<ManifestView>, list: Seq<(Chars, Seq<Chars>)>, i: int, feature: Chars, path: Chars) -> Seq<
    Chars,
>
    decreases list.len(),
{
    if list.len() == 0 {
        Seq::empty()
    } else {
        let rest = enables(ms, list.drop_last(), i, feature, path);
        if dir_place(ms, list.last().0, ms.len() as int) == Some(i) {
            rest + once_each(list.last().1, feature, path)
        } else {
            rest
        }
    }
}

/// The manifests among the first `n` that enable `feature` of manifest `i` through a path dependency.
pub open spec fn enabled_upto(ms: Seq<ManifestView>, i: int, feature: Chars, n: int) -> Seq<Chars>
    decreases n,
{
    if n <= 0 {
        Seq::empty()
    } else {
        enabled_upto(ms, i, feature, n - 1) + enables(ms, ms[n - 1].path_dep_features, i, feature, ms[n - 1].path)
    }
}

fn manifest_in_dir(ms: &Vec<Manifest>, dir: &str) -> (r: Option<usize>)
    ensures
        as_int(r) == dir_place(ms.deep_view(), dir@, ms.len() as int),
{
    let ghost view = ms.deep_view();
    let mut k: usize = ms.len();
    while k > 0
        invariant
            k <= ms.len(),
            view == ms.deep_view(),
            dir_place(view, dir@, ms.len() as int) == dir_place(view, dir@, k as int),
        decreases k,
    {
        assert(view[k - 1] == ms@[k - 1].deep_view());
        if same(ms[k - 1].dir.as_str(), dir) {
            return Some(k - 1);
        }
        k = k - 1;
    }
    None
}

fn add_each(feats: &Vec<String>, feature: &str, path: &str, out: &mut Vec<String>)
    ensures
        final(out).deep_view() == old(out).deep_view() + once_each(feats.deep_view(), feature@, path@),
{
    let ghost was = out.deep_view();
    let ghost view = feats.deep_view();
    let mut k: usize = 0;
    assert(view.take(0) =~= Seq::<Chars>::empty());
    assert(was + Seq::<Chars>::empty() =~= was);
    while k < feats.len()
        invariant
            k <= feats.len(),
            view == feats.deep_view(),
            out.deep_view() == was + once_each(view.take(k as int), feature@, path@),
        decreases feats.len() - k,
    {
        assert(view.take(k + 1).drop_last() =~= view.take(k as int));
        assert(view[k as int] == feats@[k as int]@);
        if same(feats[k].as_str(), feature) {
            let ghost rest = once_each(view.take(k as int), feature@, path@);
            put(out, path.to_owned());
            assert(was + rest.push(path@) =~= (was + rest).push(path@));
        }
        k = k + 1;
    }
    assert(view.take(view.len() as int) =~= view);
}

fn add_enables(ms: &Vec<Manifest>, from: usize, i: usize, feature: &str, out: &mut Vec<String>)
    requires
        from < ms.len(),
    ensures
        final(out).deep_view() == old(out).deep_view() + enables(
            ms.deep_view(),
            ms.deep_view()[from as int].path_dep_features,
            i as int,
            feature@,
            ms.deep_view()[from as int].path,
        ),
{
    let ghost was = out.deep_view();
    let ghost mv = ms.deep_view();
    assert(mv[from as int] == ms@[from as int].deep_view());
    let list = &ms[from].path_dep_features;
    let path = ms[from].path.as_str();
    let ghost view = list.deep_view();
    let mut k: usize = 0;
    assert(view.take(0) =~= Seq::<(Chars, Seq<Chars>)>::empty());
    assert(was + Seq::<Chars>::empty() =~= was);
    while k < list.len()
        invariant
            k <= list.len(),
            view == list.deep_view(),
            mv == ms.deep_view(),
            out.deep_view() == was + enables(mv, view.take(k as int), i as int, feature@, path@),
        decreases list.len() - k,
    {
        assert(view.take(k + 1).drop_last() =~= view.take(k as int));
        assert(view[k as int] == list@[k as int].deep_view());
        let ghost rest = enables(mv, view.take(k as int), i as int, feature@, path@);
        if let Some(at) = manifest_in_dir(ms, list[k].0.as_str()) {
            if at == i {
                add_each(&list[k].1, feature, path, out);
                proof {
                    let more = once_each(view[k as int].1, feature@, path@);
                    assert(was + (rest + more) =~= was + rest + more);
                }
            }
        }
        k = k + 1;
    }
    assert(view.take(view.len() as int) =~= view);
}

/// The manifests that enable `feature` of manifest `i` through a path dependency.
pub fn enabled_by(ms: &Vec<Manifest>, i: usize, feature: &str) -> (out: Vec<String>)
    ensures
        out.deep_view() == enabled_upto(ms.deep_view(), i as int, feature@, ms.len() as int),
{
    let ghost view = ms.deep_view();
    let mut out: Vec<String> = Vec::new();
    assert(out.deep_view() =~= Seq::<Chars>::empty());
    let mut k: usize = 0;
    while k < ms.len()
        invariant
            k <= ms.len(),
            view == ms.deep_view(),
            out.deep_view() == enabled_upto(view, i as int, feature@, k as int),
        decreases ms.len() - k,
    {
        add_enables(ms, k, i, feature, &mut out);
        k = k + 1;
    }
    out
}

// ---------- scopes ----------

/// The paths of the sides.
pub open spec fn side_paths(sides: Seq<SideView>) -> Seq<Chars> {
    Seq::new(sides.len(), |k: int| sides[k].path)
}

/// The files the test modules `mods` of `decl` resolve to.
pub open spec fn mods_resolved(decl: Chars, mods: Seq<Chars>, paths: Seq<Chars>) -> Seq<Chars>
    decreases mods.len(),
{
    if mods.len() == 0 {
        Seq::empty()
    } else {
        let rest = mods_resolved(decl, mods.drop_last(), paths);
        match first_known(mod_files(decl, mods.last()), paths, 0) {
            Some(p) => rest.push(p),
            None => rest,
        }
    }
}

/// The files that `#[cfg(test)] mod x;` of the first `n` sides makes test context.
pub open spec fn propagated(sides: Seq<SideView>, n: int) -> Seq<Chars>
    decreases n,
{
    if n <= 0 {
        Seq::empty()
    } else {
        let rest = propagated(sides, n - 1);
        if sides[n - 1].rust {
            rest + mods_resolved(sides[n - 1].path, sides[n - 1].cfg_test_mods, side_paths(sides))
        } else {
            rest
        }
    }
}

/// A side that is test context as a whole.
pub open spec fn test_side(s: SideView, tests: Seq<Chars>) -> bool {
    s.test_file || tests.contains(s.path)
}

/// Is it test context as a whole?
pub fn is_test_side(s: &FileSide, tests: &Vec<String>) -> (r: bool)
    ensures
        r == test_side(s.deep_view(), tests.deep_view()),
{
    s.test_file || list_has(tests, s.path.as_str())
}

fn add_mods(s: &FileSide, paths: &Vec<String>, out: &mut Vec<String>)
    ensures
        final(out).deep_view() == old(out).deep_view() + mods_resolved(
            s.deep_view().path,
            s.deep_view().cfg_test_mods,
            paths.deep_view(),
        ),
{
    let ghost was = out.deep_view();
    let mods = &s.cfg_test_mods;
    let ghost view = mods.deep_view();
    let mut k: usize = 0;
    assert(view.take(0) =~= Seq::<Chars>::empty());
    assert(was + Seq::<Chars>::empty() =~= was);
    while k < mods.len()
        invariant
            k <= mods.len(),
            view == mods.deep_view(),
            out.deep_view() == was + mods_resolved(s.path@, view.take(k as int), paths.deep_view()),
        decreases mods.len() - k,
    {
        assert(view.take(k + 1).drop_last() =~= view.take(k as int));
        assert(view[k as int] == mods@[k as int]@);
        if let Some(p) = resolve_mod(s.path.as_str(), mods[k].as_str(), paths) {
            let ghost rest = mods_resolved(s.path@, view.take(k as int), paths.deep_view());
            let ghost x = p@;
            put(out, p);
            assert(was + rest.push(x) =~= (was + rest).push(x));
        }
        k = k + 1;
    }
    assert(view.take(view.len() as int) =~= view);
}

/// The files that `#[cfg(test)] mod x;` makes test context.
pub fn test_files(sides: &Vec<FileSide>) -> (out: Vec<String>)
    ensures
        out.deep_view() == propagated(sides.deep_view(), sides.len() as int),
{
    let ghost view = sides.deep_view();
    let mut paths: Vec<String> = Vec::new();
    let mut k: usize = 0;
    while k < sides.len()
        invariant
            k <= sides.len(),
            view == sides.deep_view(),
            paths.len() == k,
            forall|j: int| 0 <= j < k ==> (#[trigger] paths@[j])@ == view[j].path,
        decreases sides.len() - k,
    {
        assert(view[k as int] == sides@[k as int].deep_view());
        paths.push(sides[k].path.clone());
        k = k + 1;
    }
    assert(paths.deep_view() =~= side_paths(view));
    let mut out: Vec<String> = Vec::new();
    assert(out.deep_view() =~= Seq::<Chars>::empty());
    let mut k: usize = 0;
    while k < sides.len()
        invariant
            k <= sides.len(),
            view == sides.deep_view(),
            paths.deep_view() == side_paths(view),
            out.deep_view() == propagated(view, k as int),
        decreases sides.len() - k,
    {
        assert(view[k as int] == sides@[k as int].deep_view());
        if sides[k].rust {
            add_mods(&sides[k], &paths, &mut out);
        }
        k = k + 1;
    }
    out
}

/// The nearest of the first `n` manifests above `path`; the later of two that are equally near.
pub open spec fn nearest_upto(ms: Seq<ManifestView>, path: Chars, n: int) -> Option<int>
    decreases n,
{
    if n <= 0 {
        None
    } else {
        let best = nearest_upto(ms, path, n - 1);
        let dir = ms[n - 1].dir;
        if (dir.len() == 0 || beneath(path, dir)) && (match best {
            Some(b) => dir.len() >= ms[b].dir.len(),
            None => true,
        }) {
            Some(n - 1)
        } else {
            best
        }
    }
}

/// The manifest a side belongs to: the nearest one, for Rust files.
pub open spec fn home_of(ms: Seq<ManifestView>, s: SideView) -> Option<int> {
    if s.rust {
        nearest_upto(ms, s.path, ms.len() as int)
    } else {
        None
    }
}

/// The first `n` sides that belong to manifest `i`.
pub open spec fn scope_upto(ms: Seq<ManifestView>, sides: Seq<SideView>, i: int, n: int) -> Seq<usize>
    decreases n,
{
    if n <= 0 {
        Seq::empty()
    } else if home_of(ms, sides[n - 1]) == Some(i) {
        scope_upto(ms, sides, i, n - 1).push((n - 1) as usize)
    } else {
        scope_upto(ms, sides, i, n - 1)
    }
}

/// The sides that belong to manifest `i`.
pub open spec fn scope_of(ms: Seq<ManifestView>, sides: Seq<SideView>, i: int) -> Seq<usize> {
    scope_upto(ms, sides, i, sides.len() as int)
}

fn nearest(ms: &Vec<Manifest>, path: &str) -> (r: Option<usize>)
    ensures
        as_int(r) == nearest_upto(ms.deep_view(), path@, ms.len() as int),
        r matches Some(o) ==> o < ms.len(),
{
    let ghost view = ms.deep_view();
    let mut best: Option<usize> = None;
    let mut k: usize = 0;
    while k < ms.len()
        invariant
            k <= ms.len(),
            view == ms.deep_view(),
            as_int(best) == nearest_upto(view, path@, k as int),
            best matches Some(o) ==> o < k,
        decreases ms.len() - k,
    {
        assert(view[k as int] == ms@[k as int].deep_view());
        let dir = ms[k].dir.as_str();
        if dir.is_empty() || is_beneath(path, dir) {
            let nearer = match best {
                Some(b) => {
                    assert(view[b as int] == ms@[b as int].deep_view());
                    chars(dir).len() >= chars(ms[b].dir.as_str()).len()
                },
                None => true,
            };
            if nearer {
                best = Some(k);
            }
        }
        k = k + 1;
    }
    best
}

/// The sides of each manifest are those that belong to it.
pub open spec fn scoped(scope: Seq<Vec<usize>>, ms: Seq<ManifestView>, sides: Seq<SideView>) -> bool {
    &&& scope.len() == ms.len()
    &&& forall|i: int| 0 <= i < scope.len() ==> (#[trigger] scope[i])@ == scope_of(ms, sides, i)
}

/// A place in a scope is a side.
pub proof fn scope_bounds(ms: Seq<ManifestView>, sides: Seq<SideView>, i: int, n: int)
    requires
        0 <= n <= sides.len() <= usize::MAX,
    ensures
        forall|k: int| 0 <= k < scope_upto(ms, sides, i, n).len() ==> #[trigger] scope_upto(ms, sides, i, n)[k] < n,
    decreases n,
{
    if n > 0 {
        scope_bounds(ms, sides, i, n - 1);
        let before = scope_upto(ms, sides, i, n - 1);
        assert forall|k: int| 0 <= k < scope_upto(ms, sides, i, n).len() implies #[trigger] scope_upto(ms, sides, i, n)[k]
            < n by {
            if k < before.len() {
                assert(before[k] < n - 1);
            }
        }
    }
}

/// The sides of each manifest.
pub fn scopes(ms: &Vec<Manifest>, sides: &Vec<FileSide>) -> (out: Vec<Vec<usize>>)
    ensures
        scoped(out@, ms.deep_view(), sides.deep_view()),
{
    let ghost mv = ms.deep_view();
    let ghost sv = sides.deep_view();
    let mut homes: Vec<Option<usize>> = Vec::new();
    let mut k: usize = 0;
    while k < sides.len()
        invariant
            k <= sides.len(),
            sv == sides.deep_view(),
            mv == ms.deep_view(),
            homes.len() == k,
            forall|j: int| 0 <= j < k ==> as_int(#[trigger] homes@[j]) == home_of(mv, sv[j]),
        decreases sides.len() - k,
    {
        assert(sv[k as int] == sides@[k as int].deep_view());
        let home = if sides[k].rust {
            nearest(ms, sides[k].path.as_str())
        } else {
            None
        };
        homes.push(home);
        k = k + 1;
    }
    let mut out: Vec<Vec<usize>> = Vec::new();
    let mut i: usize = 0;
    while i < ms.len()
        invariant
            i <= ms.len(),
            sv == sides.deep_view(),
            mv == ms.deep_view(),
            homes.len() == sides.len(),
            forall|j: int| 0 <= j < sides.len() ==> as_int(#[trigger] homes@[j]) == home_of(mv, sv[j]),
            out.len() == i,
            forall|j: int| 0 <= j < i ==> (#[trigger] out@[j])@ == scope_of(mv, sv, j),
        decreases ms.len() - i,
    {
        let mut list: Vec<usize> = Vec::new();
        assert(list@ =~= Seq::<usize>::empty());
        let mut k: usize = 0;
        while k < homes.len()
            invariant
                k <= homes.len(),
                homes.len() == sides.len(),
                sv == sides.deep_view(),
                forall|j: int| 0 <= j < sides.len() ==> as_int(#[trigger] homes@[j]) == home_of(mv, sv[j]),
                list@ == scope_upto(mv, sv, i as int, k as int),
            decreases homes.len() - k,
        {
            assert(as_int(homes@[k as int]) == home_of(mv, sv[k as int]));
            if let Some(h) = homes[k] {
                if h == i {
                    list.push(k);
                }
            }
            k = k + 1;
        }
        out.push(list);
        i = i + 1;
    }
    out
}

/// The paths of the sides a scope names.
pub open spec fn paths_at(sides: Seq<SideView>, scope: Seq<usize>) -> Seq<Chars> {
    Seq::new(scope.len(), |k: int| sides[scope[k] as int].path)
}

/// The paths of the sides a scope names.
pub fn scope_paths(sides: &Vec<FileSide>, scope: &Vec<usize>) -> (out: Vec<String>)
    requires
        forall|k: int| 0 <= k < scope.len() ==> #[trigger] scope@[k] < sides.len(),
    ensures
        out.deep_view() == paths_at(sides.deep_view(), scope@),
{
    let ghost sv = sides.deep_view();
    let mut out: Vec<String> = Vec::new();
    let mut k: usize = 0;
    while k < scope.len()
        invariant
            k <= scope.len(),
            sv == sides.deep_view(),
            forall|k: int| 0 <= k < scope.len() ==> #[trigger] scope@[k] < sides.len(),
            out.len() == k,
            forall|j: int| 0 <= j < k ==> (#[trigger] out@[j])@ == sv[scope@[j] as int].path,
        decreases scope.len() - k,
    {
        assert(scope@[k as int] < sides.len());
        assert(sv[scope@[k as int] as int] == sides@[scope@[k as int] as int].deep_view());
        out.push(sides[scope[k]].path.clone());
        k = k + 1;
    }
    assert(out.deep_view() =~= paths_at(sv, scope@));
    out
}

/// The directories among `parts`, below `dir`.
pub open spec fn only_dirs(dir: Chars, parts: Seq<Chars>) -> Seq<Chars>
    decreases parts.len(),
{
    if parts.len() == 0 {
        Seq::empty()
    } else if ends(parts.last(), "/"@) {
        only_dirs(dir, parts.drop_last()).push(joined_path(dir, parts.last()))
    } else {
        only_dirs(dir, parts.drop_last())
    }
}

/// `src/ or tests/`: how a scope is named.
pub open spec fn scope_name(dir: Chars, paths: Seq<Chars>) -> Chars {
    let dirs = only_dirs(dir, dirs_of(dir, paths));
    if dirs.len() == 0 {
        (if dir.len() == 0 {
            "."@
        } else {
            dir
        }) + "/"@
    } else {
        either(dirs)
    }
}

/// `src/ or tests/`: how a scope is named.
pub fn scope_text(dir: &str, paths: &Vec<String>) -> (o: String)
    ensures
        o@ == scope_name(dir@, paths.deep_view()),
{
    let parts = scope_dirs(dir, paths);
    let ghost view = parts.deep_view();
    let mut dirs: Vec<String> = Vec::new();
    assert(dirs.deep_view() =~= Seq::<Chars>::empty());
    assert(view.take(0) =~= Seq::<Chars>::empty());
    let mut k: usize = 0;
    while k < parts.len()
        invariant
            k <= parts.len(),
            view == parts.deep_view(),
            dirs.deep_view() == only_dirs(dir@, view.take(k as int)),
        decreases parts.len() - k,
    {
        assert(view.take(k + 1).drop_last() =~= view.take(k as int));
        assert(view[k as int] == parts@[k as int]@);
        if ends_with(parts[k].as_str(), "/") {
            put(&mut dirs, join_dir(dir, parts[k].as_str()));
        }
        k = k + 1;
    }
    assert(view.take(view.len() as int) =~= view);
    assert(dirs.len() == dirs.deep_view().len());
    if dirs.len() == 0 {
        plus(
            (if dir.is_empty() {
                "."
            } else {
                dir
            }).to_owned(),
            "/",
        )
    } else {
        join_or(&dirs)
    }
}

/// The paths history is asked about: each component of a scope without its `/`, else the directory
/// of the manifest.
pub open spec fn history_paths(dir: Chars, paths: Seq<Chars>) -> Seq<Chars> {
    let parts = dirs_of(dir, paths);
    if parts.len() == 0 {
        seq![
            if dir.len() == 0 {
                "."@
            } else {
                dir
            },
        ]
    } else {
        Seq::new(parts.len(), |k: int| joined_path(dir, stripped_end(parts[k], "/"@)))
    }
}

/// The paths history is asked about.
pub fn git_paths(dir: &str, paths: &Vec<String>) -> (out: Vec<String>)
    ensures
        out.deep_view() == history_paths(dir@, paths.deep_view()),
{
    let parts = scope_dirs(dir, paths);
    let ghost view = parts.deep_view();
    let mut out: Vec<String> = Vec::new();
    let mut k: usize = 0;
    while k < parts.len()
        invariant
            k <= parts.len(),
            view == parts.deep_view(),
            out.len() == k,
            forall|j: int| 0 <= j < k ==> (#[trigger] out@[j])@ == joined_path(dir@, stripped_end(view[j], "/"@)),
        decreases parts.len() - k,
    {
        assert(view[k as int] == parts@[k as int]@);
        out.push(join_dir(dir, strip_end(parts[k].as_str(), "/").as_str()));
        k = k + 1;
    }
    assert(view.len() == parts.len());
    if out.len() == 0 {
        put(
            &mut out,
            (if dir.is_empty() {
                "."
            } else {
                dir
            }).to_owned(),
        );
    }
    assert(out.deep_view() =~= history_paths(dir@, paths.deep_view()));
    out
}

/// The first crate root of a scope that silences warnings, from `k` on: its path and line.
pub open spec fn silenced_from(sides: Seq<SideView>, scope: Seq<usize>, roots: Seq<Chars>, k: int) -> Option<(Chars, usize)>
    decreases scope.len() - k,
{
    if k < 0 || k >= scope.len() {
        None
    } else {
        let s = sides[scope[k] as int];
        match s.lint_silenced {
            Some((line, _)) => if roots.contains(s.path) {
                Some((s.path, line))
            } else {
                silenced_from(sides, scope, roots, k + 1)
            },
            None => silenced_from(sides, scope, roots, k + 1),
        }
    }
}

/// The first crate root of a scope that silences warnings: its path and line.
pub fn silenced(sides: &Vec<FileSide>, scope: &Vec<usize>, roots: &Vec<String>) -> (r: Option<(String, usize)>)
    requires
        forall|k: int| 0 <= k < scope.len() ==> #[trigger] scope@[k] < sides.len(),
    ensures
        r.deep_view() == silenced_from(sides.deep_view(), scope@, roots.deep_view(), 0),
{
    let ghost sv = sides.deep_view();
    let ghost rv = roots.deep_view();
    let mut k: usize = 0;
    while k < scope.len()
        invariant
            k <= scope.len(),
            sv == sides.deep_view(),
            rv == roots.deep_view(),
            forall|k: int| 0 <= k < scope.len() ==> #[trigger] scope@[k] < sides.len(),
            silenced_from(sv, scope@, rv, 0) == silenced_from(sv, scope@, rv, k as int),
        decreases scope.len() - k,
    {
        assert(scope@[k as int] < sides.len());
        let s = &sides[scope[k]];
        assert(sv[scope@[k as int] as int] == s.deep_view());
        if let Some(l) = &s.lint_silenced {
            if list_has(roots, s.path.as_str()) {
                return Some((s.path.clone(), l.0));
            }
        }
        k = k + 1;
    }
    None
}

} // verus!
