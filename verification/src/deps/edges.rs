//! Which file depends on which, stated over the imports that the files state.

use vstd::prelude::*;

use crate::config::Deps;
use crate::deps::assemble::{
    edges_of, edges_upto, file_targets, graph_of, in_repo, known_of, last_edges_are_one_each, last_from, refs_to,
    stated, target_edges, target_keys, target_place, targets_at, with_target, with_targets, Targets,
};
use crate::deps::extract::{EdgeKind, RawImportView};
use crate::deps::graph::{carried_with, edge_of, nothing_carried, CarriedView, EdgeView};
use crate::deps::resolve::targets_of;
use crate::discover::{FileKind, SourceFile};
use crate::lang::Language;
use crate::order::{ordered, ordered_bounds, ordered_is_complete};
use crate::text::Chars;

verus! {

/// An import of a file leads to another file.
pub open spec fn leads_to(path: Chars, lang: Language, r: RawImportView, known: Seq<Chars>, cfg: Deps, to: Chars) -> bool {
    to != path && (targets_of(path, lang, r, known, cfg) matches Some(ts) && ts.contains(to))
}

/// A file is among the targets.
pub open spec fn is_target(list: Targets, to: Chars) -> bool {
    exists|k: int| 0 <= k < list.len() && (#[trigger] list[k]).0 == to
}

// ---------- the targets of a file ----------

/// What is carried by the imports that lead to one file.
spec fn carries_all(c: CarriedView, rs: Seq<RawImportView>) -> bool {
    &&& c.is_mod <==> exists|x: int| 0 <= x < rs.len() && (#[trigger] rs[x]).kind == EdgeKind::Mod
    &&& forall|s: Chars|
        #[trigger] c.names.contains(s) <==> exists|x: int|
            0 <= x < rs.len() && (#[trigger] rs[x]).kind != EdgeKind::TypeOnly && rs[x].syms.contains(s)
    &&& forall|s: Chars|
        #[trigger] c.type_names.contains(s) <==> exists|x: int|
            0 <= x < rs.len() && (#[trigger] rs[x]).kind == EdgeKind::TypeOnly && rs[x].syms.contains(s)
    &&& c.globs > 0 <==> exists|x: int| 0 <= x < rs.len() && (#[trigger] rs[x]).kind == EdgeKind::Use && rs[x].glob
    &&& c.type_globs > 0 <==> exists|x: int| 0 <= x < rs.len() && (#[trigger] rs[x]).kind == EdgeKind::TypeOnly && rs[x].glob
}

proof fn added_has(a: Seq<Chars>, b: Seq<Chars>, s: Chars)
    ensures
        (a + b).contains(s) <==> a.contains(s) || b.contains(s),
{
    if a.contains(s) {
        let k = choose|k: int| 0 <= k < a.len() && a[k] == s;
        assert((a + b)[k] == s);
    }
    if b.contains(s) {
        let k = choose|k: int| 0 <= k < b.len() && b[k] == s;
        assert((a + b)[a.len() + k] == s);
    }
    if (a + b).contains(s) {
        let k = choose|k: int| 0 <= k < (a + b).len() && (a + b)[k] == s;
        if k < a.len() {
            assert(a[k] == s);
        } else {
            assert(b[k - a.len()] == s);
        }
    }
}

#[verifier::spinoff_prover]
#[verifier::rlimit(60)]
proof fn one_more_carries(c: CarriedView, rs: Seq<RawImportView>, r: RawImportView)
    requires
        carries_all(c, rs),
    ensures
        carries_all(carried_with(c, r), rs.push(r)),
{
    let more = rs.push(r);
    let n = rs.len() as int;
    let d = carried_with(c, r);
    assert(more[n] == r);
    assert forall|x: int| 0 <= x < n implies #[trigger] more[x] == rs[x] by {}
    assert forall|x: int| 0 <= x < n implies #[trigger] rs[x] == more[x] by {}
    assert forall|s: Chars|
        #[trigger] d.names.contains(s) <==> exists|x: int|
            0 <= x < more.len() && (#[trigger] more[x]).kind != EdgeKind::TypeOnly && more[x].syms.contains(s) by {
        added_has(c.names, r.syms, s);
        if c.names.contains(s) {
            let x = choose|x: int| 0 <= x < rs.len() && (#[trigger] rs[x]).kind != EdgeKind::TypeOnly && rs[x].syms.contains(s);
            assert(more[x].syms.contains(s));
        }
        if exists|x: int| 0 <= x < more.len() && (#[trigger] more[x]).kind != EdgeKind::TypeOnly && more[x].syms.contains(s) {
            let x = choose|x: int| 0 <= x < more.len() && (#[trigger] more[x]).kind != EdgeKind::TypeOnly && more[x].syms.contains(s);
            if x < n {
                assert(rs[x].syms.contains(s));
            }
        }
    }
    assert forall|s: Chars|
        #[trigger] d.type_names.contains(s) <==> exists|x: int|
            0 <= x < more.len() && (#[trigger] more[x]).kind == EdgeKind::TypeOnly && more[x].syms.contains(s) by {
        added_has(c.type_names, r.syms, s);
        if c.type_names.contains(s) {
            let x = choose|x: int| 0 <= x < rs.len() && (#[trigger] rs[x]).kind == EdgeKind::TypeOnly && rs[x].syms.contains(s);
            assert(more[x].syms.contains(s));
        }
        if exists|x: int| 0 <= x < more.len() && (#[trigger] more[x]).kind == EdgeKind::TypeOnly && more[x].syms.contains(s) {
            let x = choose|x: int| 0 <= x < more.len() && (#[trigger] more[x]).kind == EdgeKind::TypeOnly && more[x].syms.contains(s);
            if x < n {
                assert(rs[x].syms.contains(s));
            }
        }
    }
}

/// The imports among those that lead to a file, each as often as it names it.
spec fn leading(ts: Seq<Chars>, path: Chars, r: RawImportView, to: Chars, k: int) -> Seq<RawImportView>
    decreases k,
{
    if k <= 0 {
        Seq::empty()
    } else if ts[k - 1] == to && to != path {
        leading(ts, path, r, to, k - 1).push(r)
    } else {
        leading(ts, path, r, to, k - 1)
    }
}

/// Every target is listed once, with what a list of imports carries.
spec fn listed(list: Targets, f: spec_fn(Chars) -> Seq<RawImportView>) -> bool {
    &&& forall|a: int, b: int| 0 <= a < b < list.len() ==> (#[trigger] list[a]).0 != (#[trigger] list[b]).0
    &&& forall|k: int| 0 <= k < list.len() ==> carries_all((#[trigger] list[k]).1, f(list[k].0)) && f(list[k].0).len() > 0
    &&& forall|to: Chars| (#[trigger] f(to)).len() > 0 ==> is_target(list, to)
}

/// The same lists, with one import more for one file.
spec fn plus_at(f: spec_fn(Chars) -> Seq<RawImportView>, to: Chars, r: RawImportView) -> spec_fn(Chars) -> Seq<RawImportView> {
    |t: Chars| if t == to { f(t).push(r) } else { f(t) }
}

proof fn place_is_found(list: Targets, to: Chars, k: int)
    requires
        0 <= k,
    ensures
        match target_place(list, to, k) {
            Some(i) => k <= i < list.len() && list[i].0 == to,
            None => forall|j: int| k <= j < list.len() ==> (#[trigger] list[j]).0 != to,
        },
    decreases list.len() - k,
{
    if k < list.len() && list[k].0 != to {
        place_is_found(list, to, k + 1);
    }
}

#[verifier::spinoff_prover]
#[verifier::rlimit(60)]
proof fn one_target_is_listed(list: Targets, f: spec_fn(Chars) -> Seq<RawImportView>, to: Chars, r: RawImportView)
    requires
        listed(list, f),
    ensures
        listed(with_target(list, to, r), plus_at(f, to, r)),
{
    let g = plus_at(f, to, r);
    let all = with_target(list, to, r);
    place_is_found(list, to, 0);
    match target_place(list, to, 0) {
        Some(i) => {
            one_more_carries(list[i].1, f(to), r);
            assert forall|k: int| 0 <= k < all.len() implies carries_all((#[trigger] all[k]).1, g(all[k].0)) && g(all[k].0).len() > 0 by {
                if k != i {
                    assert(all[k] == list[k]);
                }
            }
            assert forall|t: Chars| (#[trigger] g(t)).len() > 0 implies is_target(all, t) by {
                if t == to {
                    assert(all[i].0 == to);
                } else {
                    assert(f(t).len() > 0);
                    let k = choose|k: int| 0 <= k < list.len() && (#[trigger] list[k]).0 == t;
                    assert(all[k].0 == t);
                }
            }
        },
        None => {
            if f(to).len() > 0 {
                assert(is_target(list, to));
            }
            assert(f(to) =~= Seq::<RawImportView>::empty());
            assert(carries_all(nothing_carried(), Seq::<RawImportView>::empty()));
            one_more_carries(nothing_carried(), f(to), r);
            assert forall|k: int| 0 <= k < all.len() implies carries_all((#[trigger] all[k]).1, g(all[k].0)) && g(all[k].0).len() > 0 by {
                if k < list.len() {
                    assert(all[k] == list[k]);
                }
            }
            assert forall|t: Chars| (#[trigger] g(t)).len() > 0 implies is_target(all, t) by {
                if t == to {
                    assert(all[list.len() as int].0 == to);
                } else {
                    assert(f(t).len() > 0);
                    let k = choose|k: int| 0 <= k < list.len() && (#[trigger] list[k]).0 == t;
                    assert(all[k].0 == t);
                }
            }
        },
    }
}

proof fn same_lists(list: Targets, f: spec_fn(Chars) -> Seq<RawImportView>, g: spec_fn(Chars) -> Seq<RawImportView>)
    requires
        listed(list, f),
        forall|t: Chars| #[trigger] g(t) == f(t),
    ensures
        listed(list, g),
{
    assert forall|k: int| 0 <= k < list.len() implies carries_all((#[trigger] list[k]).1, g(list[k].0)) && g(list[k].0).len() > 0 by {
        assert(g(list[k].0) == f(list[k].0));
    }
    assert forall|to: Chars| (#[trigger] g(to)).len() > 0 implies is_target(list, to) by {
        assert(f(to).len() > 0);
    }
}

proof fn more_targets_are_listed(list: Targets, f: spec_fn(Chars) -> Seq<RawImportView>, ts: Seq<Chars>, path: Chars, r: RawImportView, k: int)
    requires
        0 <= k <= ts.len(),
        listed(list, |t: Chars| f(t) + leading(ts, path, r, t, k)),
    ensures
        listed(with_targets(list, ts, path, r, k), |t: Chars| f(t) + leading(ts, path, r, t, ts.len() as int)),
    decreases ts.len() - k,
{
    if k < ts.len() {
        let g = |t: Chars| f(t) + leading(ts, path, r, t, k);
        let h = |t: Chars| f(t) + leading(ts, path, r, t, k + 1);
        let next = if ts[k] == path { list } else { with_target(list, ts[k], r) };
        if ts[k] == path {
            same_lists(list, g, h);
        } else {
            one_target_is_listed(list, g, ts[k], r);
            let g2 = plus_at(g, ts[k], r);
            assert forall|t: Chars| #[trigger] h(t) == g2(t) by {
                if t == ts[k] {
                    assert(f(t) + leading(ts, path, r, t, k).push(r) =~= (f(t) + leading(ts, path, r, t, k)).push(r));
                }
            }
            same_lists(next, g2, h);
        }
        more_targets_are_listed(next, f, ts, path, r, k + 1);
    }
}

/// All imports that lead to a file.
spec fn all_leading(path: Chars, lang: Language, raws: Seq<RawImportView>, known: Seq<Chars>, cfg: Deps, to: Chars) -> Seq<RawImportView>
    decreases raws.len(),
{
    if raws.len() == 0 {
        Seq::empty()
    } else {
        let rest = all_leading(path, lang, raws.drop_last(), known, cfg, to);
        match targets_of(path, lang, raws.last(), known, cfg) {
            Some(ts) => rest + leading(ts, path, raws.last(), to, ts.len() as int),
            None => rest,
        }
    }
}

proof fn targets_are_listed(path: Chars, lang: Language, raws: Seq<RawImportView>, known: Seq<Chars>, cfg: Deps)
    ensures
        listed(file_targets(path, lang, raws, known, cfg).0, |t: Chars| all_leading(path, lang, raws, known, cfg, t)),
    decreases raws.len(),
{
    let g = |t: Chars| all_leading(path, lang, raws, known, cfg, t);
    if raws.len() > 0 {
        let less = raws.drop_last();
        let r = raws.last();
        targets_are_listed(path, lang, less, known, cfg);
        let f = |t: Chars| all_leading(path, lang, less, known, cfg, t);
        let list = file_targets(path, lang, less, known, cfg).0;
        match targets_of(path, lang, r, known, cfg) {
            Some(ts) => {
                let f0 = |t: Chars| f(t) + leading(ts, path, r, t, 0);
                assert forall|t: Chars| #[trigger] f0(t) == f(t) by {
                    assert(f(t) + leading(ts, path, r, t, 0) =~= f(t));
                }
                same_lists(list, f, f0);
                more_targets_are_listed(list, f, ts, path, r, 0);
                let f1 = |t: Chars| f(t) + leading(ts, path, r, t, ts.len() as int);
                same_lists(with_targets(list, ts, path, r, 0), f1, g);
            },
            None => {
                same_lists(list, f, g);
            },
        }
    }
}

proof fn leading_are(ts: Seq<Chars>, path: Chars, r: RawImportView, to: Chars, n: int)
    requires
        0 <= n <= ts.len(),
    ensures
        leading(ts, path, r, to, n).len() > 0 <==> to != path && exists|k: int| 0 <= k < n && #[trigger] ts[k] == to,
        forall|x: int| 0 <= x < leading(ts, path, r, to, n).len() ==> #[trigger] leading(ts, path, r, to, n)[x] == r,
    decreases n,
{
    if n > 0 {
        leading_are(ts, path, r, to, n - 1);
        if ts[n - 1] == to && to != path {
            assert(ts[n - 1] == to);
        }
    }
}

/// A list of imports holds just those of the file that lead to a path.
spec fn just_leading(path: Chars, lang: Language, raws: Seq<RawImportView>, known: Seq<Chars>, cfg: Deps, to: Chars, rs: Seq<RawImportView>) -> bool {
    &&& forall|x: int| 0 <= x < rs.len() ==> raws.contains(#[trigger] rs[x]) && leads_to(path, lang, rs[x], known, cfg, to)
    &&& forall|y: int| 0 <= y < raws.len() && leads_to(path, lang, #[trigger] raws[y], known, cfg, to) ==> rs.contains(raws[y])
}

proof fn all_leading_lead(path: Chars, lang: Language, raws: Seq<RawImportView>, known: Seq<Chars>, cfg: Deps, to: Chars)
    ensures
        just_leading(path, lang, raws, known, cfg, to, all_leading(path, lang, raws, known, cfg, to)),
    decreases raws.len(),
{
    if raws.len() > 0 {
        let less = raws.drop_last();
        let r = raws.last();
        all_leading_lead(path, lang, less, known, cfg, to);
        let rest = all_leading(path, lang, less, known, cfg, to);
        let all = all_leading(path, lang, raws, known, cfg, to);
        let more = match targets_of(path, lang, r, known, cfg) {
            Some(ts) => leading(ts, path, r, to, ts.len() as int),
            None => Seq::empty(),
        };
        if let Some(ts) = targets_of(path, lang, r, known, cfg) {
            leading_are(ts, path, r, to, ts.len() as int);
        }
        assert(all =~= rest + more);
        assert forall|x: int| 0 <= x < all.len() implies raws.contains(#[trigger] all[x]) && leads_to(path, lang, all[x], known, cfg, to) by {
            if x < rest.len() {
                assert(all[x] == rest[x]);
                let y = choose|y: int| 0 <= y < less.len() && less[y] == rest[x];
                assert(raws[y] == rest[x]);
            } else {
                assert(all[x] == more[x - rest.len()]);
                assert(raws[raws.len() - 1] == r);
                let ts = targets_of(path, lang, r, known, cfg)->0;
                let k = choose|k: int| 0 <= k < ts.len() && #[trigger] ts[k] == to;
                assert(ts.contains(to));
            }
        }
        assert forall|y: int| 0 <= y < raws.len() && leads_to(path, lang, #[trigger] raws[y], known, cfg, to) implies all.contains(raws[y]) by {
            if y < less.len() {
                assert(less[y] == raws[y]);
                let x = choose|x: int| 0 <= x < rest.len() && rest[x] == raws[y];
                assert(all[x] == raws[y]);
            } else {
                let ts = targets_of(path, lang, r, known, cfg)->0;
                let k = choose|k: int| 0 <= k < ts.len() && ts[k] == to;
                assert(ts[k] == to);
                assert(more.len() > 0);
                assert(all[rest.len() as int] == more[0]);
            }
        }
    }
}

/// The targets of a file are the other files that its imports lead to, each once.
pub proof fn a_target_is_what_an_import_leads_to(path: Chars, lang: Language, raws: Seq<RawImportView>, known: Seq<Chars>, cfg: Deps, to: Chars)
    ensures
        is_target(file_targets(path, lang, raws, known, cfg).0, to) <==> exists|x: int|
            0 <= x < raws.len() && leads_to(path, lang, #[trigger] raws[x], known, cfg, to),
        forall|a: int, b: int|
            0 <= a < b < file_targets(path, lang, raws, known, cfg).0.len() ==> (#[trigger] file_targets(path, lang, raws, known, cfg).0[a]).0 != (
            #[trigger] file_targets(path, lang, raws, known, cfg).0[b]).0,
{
    targets_are_listed(path, lang, raws, known, cfg);
    all_leading_lead(path, lang, raws, known, cfg, to);
    let list = file_targets(path, lang, raws, known, cfg).0;
    let f = |t: Chars| all_leading(path, lang, raws, known, cfg, t);
    let rs = all_leading(path, lang, raws, known, cfg, to);
    assert(f(to) == rs);
    if is_target(list, to) {
        let k = choose|k: int| 0 <= k < list.len() && (#[trigger] list[k]).0 == to;
        assert(f(list[k].0).len() > 0);
        assert(raws.contains(rs[0]));
        let x = choose|x: int| 0 <= x < raws.len() && raws[x] == rs[0];
        assert(leads_to(path, lang, raws[x], known, cfg, to));
    }
    if exists|x: int| 0 <= x < raws.len() && leads_to(path, lang, #[trigger] raws[x], known, cfg, to) {
        let x = choose|x: int| 0 <= x < raws.len() && leads_to(path, lang, #[trigger] raws[x], known, cfg, to);
        assert(rs.contains(raws[x]));
        assert(f(to).len() > 0);
    }
}

/// What an edge carries is what the imports that lead along it do: it is a declaration where one of
/// them is, its names are those that an import other than of types brings in, and its types those that
/// an import of types does.
pub proof fn a_target_carries_what_its_imports_do(
    path: Chars,
    lang: Language,
    raws: Seq<RawImportView>,
    known: Seq<Chars>,
    cfg: Deps,
    k: int,
    s: Chars,
)
    requires
        0 <= k < file_targets(path, lang, raws, known, cfg).0.len(),
    ensures
        ({
            let (to, c) = file_targets(path, lang, raws, known, cfg).0[k];
            &&& c.is_mod <==> exists|x: int|
                0 <= x < raws.len() && leads_to(path, lang, #[trigger] raws[x], known, cfg, to) && raws[x].kind == EdgeKind::Mod
            &&& c.names.contains(s) <==> exists|x: int|
                0 <= x < raws.len() && leads_to(path, lang, #[trigger] raws[x], known, cfg, to) && raws[x].kind != EdgeKind::TypeOnly
                    && raws[x].syms.contains(s)
            &&& c.type_names.contains(s) <==> exists|x: int|
                0 <= x < raws.len() && leads_to(path, lang, #[trigger] raws[x], known, cfg, to) && raws[x].kind == EdgeKind::TypeOnly
                    && raws[x].syms.contains(s)
            &&& c.globs > 0 <==> exists|x: int|
                0 <= x < raws.len() && leads_to(path, lang, #[trigger] raws[x], known, cfg, to) && raws[x].kind == EdgeKind::Use && raws[x].glob
        }),
{
    targets_are_listed(path, lang, raws, known, cfg);
    let list = file_targets(path, lang, raws, known, cfg).0;
    let (to, c) = list[k];
    all_leading_lead(path, lang, raws, known, cfg, to);
    let f = |t: Chars| all_leading(path, lang, raws, known, cfg, t);
    let rs = all_leading(path, lang, raws, known, cfg, to);
    assert(f(to) == rs);
    assert(carries_all(c, rs));
    carried_is_by_raws(path, lang, raws, known, cfg, to, rs, c, s);
}

#[verifier::spinoff_prover]
#[verifier::rlimit(60)]
proof fn carried_is_by_raws(
    path: Chars,
    lang: Language,
    raws: Seq<RawImportView>,
    known: Seq<Chars>,
    cfg: Deps,
    to: Chars,
    rs: Seq<RawImportView>,
    c: CarriedView,
    s: Chars,
)
    requires
        carries_all(c, rs),
        just_leading(path, lang, raws, known, cfg, to, rs),
    ensures
        c.is_mod <==> exists|x: int|
            0 <= x < raws.len() && leads_to(path, lang, #[trigger] raws[x], known, cfg, to) && raws[x].kind == EdgeKind::Mod,
        c.names.contains(s) <==> exists|x: int|
            0 <= x < raws.len() && leads_to(path, lang, #[trigger] raws[x], known, cfg, to) && raws[x].kind != EdgeKind::TypeOnly && raws[x].syms.contains(
                s,
            ),
        c.type_names.contains(s) <==> exists|x: int|
            0 <= x < raws.len() && leads_to(path, lang, #[trigger] raws[x], known, cfg, to) && raws[x].kind == EdgeKind::TypeOnly && raws[x].syms.contains(
                s,
            ),
        c.globs > 0 <==> exists|x: int|
            0 <= x < raws.len() && leads_to(path, lang, #[trigger] raws[x], known, cfg, to) && raws[x].kind == EdgeKind::Use && raws[x].glob,
{
    assert forall|y: int| 0 <= y < raws.len() && leads_to(path, lang, #[trigger] raws[y], known, cfg, to) implies exists|x: int|
        0 <= x < rs.len() && #[trigger] rs[x] == raws[y] by {
        assert(rs.contains(raws[y]));
    }
    if c.is_mod {
        let x = choose|x: int| 0 <= x < rs.len() && (#[trigger] rs[x]).kind == EdgeKind::Mod;
        assert(raws.contains(rs[x]));
        let y = choose|y: int| 0 <= y < raws.len() && raws[y] == rs[x];
        assert(leads_to(path, lang, raws[y], known, cfg, to));
    }
    if c.names.contains(s) {
        let x = choose|x: int| 0 <= x < rs.len() && (#[trigger] rs[x]).kind != EdgeKind::TypeOnly && rs[x].syms.contains(s);
        assert(raws.contains(rs[x]));
        let y = choose|y: int| 0 <= y < raws.len() && raws[y] == rs[x];
        assert(leads_to(path, lang, raws[y], known, cfg, to));
    }
    if c.type_names.contains(s) {
        let x = choose|x: int| 0 <= x < rs.len() && (#[trigger] rs[x]).kind == EdgeKind::TypeOnly && rs[x].syms.contains(s);
        assert(raws.contains(rs[x]));
        let y = choose|y: int| 0 <= y < raws.len() && raws[y] == rs[x];
        assert(leads_to(path, lang, raws[y], known, cfg, to));
    }
    if c.globs > 0 {
        let x = choose|x: int| 0 <= x < rs.len() && (#[trigger] rs[x]).kind == EdgeKind::Use && rs[x].glob;
        assert(raws.contains(rs[x]));
        let y = choose|y: int| 0 <= y < raws.len() && raws[y] == rs[x];
        assert(leads_to(path, lang, raws[y], known, cfg, to));
    }
}

/// An edge is a declaration where an import along it declares a module; else a use where one brings in
/// a name or all names; else of types alone.
pub proof fn an_edge_is_of_its_strongest_kind(c: CarriedView, from: Chars, to: Chars, cost: u32)
    ensures
        edge_of(c, from, to, cost).kind == EdgeKind::Mod <==> c.is_mod,
        edge_of(c, from, to, cost).kind == EdgeKind::Use <==> !c.is_mod && (c.names.len() > 0 || c.globs > 0),
        edge_of(c, from, to, cost).kind == EdgeKind::TypeOnly <==> !c.is_mod && c.names.len() == 0 && c.globs == 0,
        edge_of(c, from, to, cost).from == from,
        edge_of(c, from, to, cost).to == to,
{
}

/// The imports that lead nowhere are counted.
pub proof fn an_unresolved_import_is_external(path: Chars, lang: Language, raws: Seq<RawImportView>, known: Seq<Chars>, cfg: Deps)
    ensures
        file_targets(path, lang, raws, known, cfg).1 == raws.filter(
            |r: RawImportView| targets_of(path, lang, r, known, cfg) is None,
        ).len(),
    decreases raws.len(),
{
    reveal(Seq::filter);
    if raws.len() > 0 {
        an_unresolved_import_is_external(path, lang, raws.drop_last(), known, cfg);
    }
}

// ---------- the edges of a repository ----------

/// There is an edge from a file to another.
pub open spec fn has_edge(edges: Seq<EdgeView>, from: Chars, to: Chars) -> bool {
    exists|k: int| 0 <= k < edges.len() && (#[trigger] edges[k]).from == from && edges[k].to == to
}

proof fn edges_have_targets(path: Chars, list: Targets, cost: u32, to: Chars)
    ensures
        has_edge(target_edges(path, list, cost), path, to) <==> is_target(list, to),
        forall|k: int| 0 <= k < target_edges(path, list, cost).len() ==> (#[trigger] target_edges(path, list, cost)[k]).from == path,
{
    let keys = target_keys(list);
    let n = list.len() as int;
    ordered_bounds(keys, n);
    let order = ordered(keys, n);
    let all = target_edges(path, list, cost);
    assert forall|k: int| 0 <= k < all.len() implies (#[trigger] all[k]).from == path && all[k].to == list[order[k]].0 by {}
    if is_target(list, to) {
        let k = choose|k: int| 0 <= k < list.len() && (#[trigger] list[k]).0 == to;
        ordered_is_complete(keys, n, k);
        let x = choose|x: int| 0 <= x < order.len() && order[x] == k;
        assert(all[x].to == to);
    }
    if has_edge(all, path, to) {
        let x = choose|x: int| 0 <= x < all.len() && (#[trigger] all[x]).from == path && all[x].to == to;
        assert(list[order[x]].0 == to);
    }
}

/// A file of the repository states an import that leads to another one.
pub open spec fn depends(all: Seq<SourceFile>, raws: Seq<Seq<RawImportView>>, cfg: Deps, from: Chars, to: Chars, n: int) -> bool {
    exists|i: int, x: int| {
        &&& 0 <= i < n
        &&& all[i].kind != FileKind::Vendored
        &&& all[i].kind != FileKind::Generated
        &&& all[i].path@ == from
        &&& 0 <= x < raws[i].len()
        &&& leads_to(from, all[i].lang, #[trigger] raws[i][x], known_of(all), cfg, to)
    }
}

proof fn edges_upto_are(all: Seq<SourceFile>, raws: Seq<Seq<RawImportView>>, cfg: Deps, from: Chars, to: Chars, n: int)
    requires
        0 <= n <= all.len(),
    ensures
        has_edge(edges_upto(all, raws, n, cfg), from, to) <==> depends(all, raws, cfg, from, to, n),
    decreases n,
{
    if n > 0 {
        edges_upto_are(all, raws, cfg, from, to, n - 1);
        let i = n - 1;
        let rest = edges_upto(all, raws, i, cfg);
        let mine = if in_repo(all[i]) {
            target_edges(all[i].path@, targets_at(all, raws, i, cfg).0, cfg.glob_import_symbol_cost)
        } else {
            Seq::empty()
        };
        let both = edges_upto(all, raws, n, cfg);
        assert(both == rest + mine);
        let said = stated(all[i], raws[i]);
        if in_repo(all[i]) {
            edges_have_targets(all[i].path@, targets_at(all, raws, i, cfg).0, cfg.glob_import_symbol_cost, to);
            a_target_is_what_an_import_leads_to(all[i].path@, all[i].lang, said, known_of(all), cfg, to);
        }
        if has_edge(both, from, to) {
            let k = choose|k: int| 0 <= k < both.len() && (#[trigger] both[k]).from == from && both[k].to == to;
            if k < rest.len() {
                assert(rest[k] == both[k]);
                assert(has_edge(rest, from, to));
                let (a, x) = choose|a: int, x: int| {
                    &&& 0 <= a < i
                    &&& all[a].kind != FileKind::Vendored
                    &&& all[a].kind != FileKind::Generated
                    &&& all[a].path@ == from
                    &&& 0 <= x < raws[a].len()
                    &&& leads_to(from, all[a].lang, #[trigger] raws[a][x], known_of(all), cfg, to)
                };
                assert(leads_to(from, all[a].lang, raws[a][x], known_of(all), cfg, to));
            } else {
                assert(mine[k - rest.len()] == both[k]);
                assert(all[i].path@ == from);
                assert(has_edge(mine, from, to));
                let x = choose|x: int| 0 <= x < said.len() && leads_to(from, all[i].lang, #[trigger] said[x], known_of(all), cfg, to);
                assert(said == raws[i]);
                assert(leads_to(from, all[i].lang, raws[i][x], known_of(all), cfg, to));
            }
        }
        if depends(all, raws, cfg, from, to, n) {
            let (a, x) = choose|a: int, x: int| {
                &&& 0 <= a < n
                &&& all[a].kind != FileKind::Vendored
                &&& all[a].kind != FileKind::Generated
                &&& all[a].path@ == from
                &&& 0 <= x < raws[a].len()
                &&& leads_to(from, all[a].lang, #[trigger] raws[a][x], known_of(all), cfg, to)
            };
            if a < i {
                assert(leads_to(from, all[a].lang, raws[a][x], known_of(all), cfg, to));
                assert(depends(all, raws, cfg, from, to, i));
                let k = choose|k: int| 0 <= k < rest.len() && (#[trigger] rest[k]).from == from && rest[k].to == to;
                assert(both[k] == rest[k]);
            } else {
                assert(said == raws[i]);
                assert(leads_to(from, all[i].lang, said[x], known_of(all), cfg, to));
                let k = choose|k: int| 0 <= k < mine.len() && (#[trigger] mine[k]).from == from && mine[k].to == to;
                assert(both[rest.len() + k] == mine[k]);
            }
        }
    }
}

/// The graph has an edge from one file to another exactly where a file of the repository that is not
/// generated states an import that leads there; and it has no two.
pub proof fn an_edge_is_an_import(all: Seq<SourceFile>, raws: Seq<Seq<RawImportView>>, cfg: Deps, floors: Seq<usize>, from: Chars, to: Chars)
    ensures
        has_edge(graph_of(all, raws, cfg, floors).edges, from, to) <==> depends(all, raws, cfg, from, to, all.len() as int),
        crate::deps::assemble::one_each(graph_of(all, raws, cfg, floors).edges),
{
    let said = edges_of(all, raws, cfg);
    let kept = last_from(said, 0);
    edges_upto_are(all, raws, cfg, from, to, all.len() as int);
    last_edges_are_one_each(said);
    if has_edge(kept, from, to) {
        let k = choose|k: int| 0 <= k < kept.len() && (#[trigger] kept[k]).from == from && kept[k].to == to;
        assert(said.contains(kept[k]));
        let j = choose|j: int| 0 <= j < said.len() && said[j] == kept[k];
        assert(said[j].from == from);
    }
    if has_edge(said, from, to) {
        let j = choose|j: int| 0 <= j < said.len() && (#[trigger] said[j]).from == from && said[j].to == to;
        let x = choose|x: int| 0 <= x < kept.len() && crate::deps::assemble::same_ends(#[trigger] kept[x], said[j]);
        assert(kept[x].from == from && kept[x].to == to);
    }
}

/// A file is used as often as edges lead to it, counted apart for those that come from tests.
pub proof fn a_use_is_an_edge(all: Seq<SourceFile>, pairs: Seq<(usize, usize)>, i: int, tests: bool, n: int)
    requires
        0 <= n <= pairs.len(),
    ensures
        refs_to(all, pairs, i, tests, n) == pairs.take(n).filter(
            |p: (usize, usize)| p.1 == i && (all[p.0 as int].kind == FileKind::Test) == tests,
        ).len(),
    decreases n,
{
    reveal(Seq::filter);
    if n > 0 {
        a_use_is_an_edge(all, pairs, i, tests, n - 1);
        assert(pairs.take(n).drop_last() =~= pairs.take(n - 1));
        assert(pairs.take(n).last() == pairs[n - 1]);
    }
}

} // verus!
