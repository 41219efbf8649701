//! Which features and settings are in use, stated over the files and the manifest.

use vstd::prelude::*;

use crate::declared::features::{
    alive_start, case_of, consumers_of, count_of, decls_of, env_name, fix_grows, implied, start_holds, state_of,
    uses_upto, written, CaseView, FeatureState,
};
use crate::declared::knobs::{
    cand_step, collides, decl_at, field_keys, fields_upto, file_at, found_upto, reads_at, sibling_read, unread_knob,
    FoundView, KnobView, KnobsView,
};
use crate::declared::laws::{a_manifest_has_the_files_nearest_to_it, is_nearest};
use crate::declared::links::{child_at, path_to, source_at};
use crate::declared::manifest::{DepView, FeatureDeclView, ManifestView};
use crate::declared::orphans::PassView;
use crate::declared::scope::scope_of;
use crate::declared::side::{FieldView, SideView};
use crate::text::Chars;

verus! {

// ---------- declared features ----------

proof fn written_keeps(features: Seq<FeatureDeclView>, k: int)
    requires
        0 <= k < features.len(),
        features[k].name != "default"@,
    ensures
        written(features).contains(features[k]),
    decreases features.len(),
{
    let rest = written(features.drop_last());
    let all = written(features);
    if k == features.len() - 1 {
        assert(all[rest.len() as int] == features[k]);
    } else {
        written_keeps(features.drop_last(), k);
        let x = choose|x: int| 0 <= x < rest.len() && rest[x] == features[k];
        assert(all[x] == rest[x]);
    }
}

/// Every feature that a manifest writes is declared, but for `default`.
pub proof fn every_written_feature_is_declared(m: ManifestView, k: int)
    requires
        0 <= k < m.features.len(),
        m.features[k].name != "default"@,
    ensures
        decls_of(m).contains(m.features[k]),
{
    written_keeps(m.features, k);
    let a = written(m.features);
    let x = choose|x: int| 0 <= x < a.len() && a[x] == m.features[k];
    assert(decls_of(m)[x] == m.features[k]);
}

/// A feature names a dependency: `dep:name`, or plainly.
pub open spec fn names_dependency(f: FeatureDeclView, name: Chars) -> bool {
    exists|k: int| 0 <= k < f.elements.len() && (#[trigger] f.elements[k] == "dep:"@ + name || f.elements[k] == name)
}

proof fn implied_keeps(features: Seq<FeatureDeclView>, deps: Seq<DepView>, k: int)
    requires
        0 <= k < deps.len(),
        deps[k].optional,
        forall|j: int| 0 <= j < features.len() ==> !names_dependency(#[trigger] features[j], deps[k].name) && features[j].name != deps[k].name,
    ensures
        exists|x: int|
            0 <= x < implied(features, deps).len() && (#[trigger] implied(features, deps)[x]).name == deps[k].name && implied(features, deps)[x].elements
                == seq!["dep:"@ + deps[k].name],
    decreases deps.len(),
{
    let rest = implied(features, deps.drop_last());
    let all = implied(features, deps);
    if k == deps.len() - 1 {
        let d = deps[k];
        assert(!crate::declared::features::named_by(features, d.name)) by {
            if crate::declared::features::named_by(features, d.name) {
                let j = choose|j: int|
                    0 <= j < features.len() && crate::declared::orphans::gates_dep((#[trigger] features[j]).elements, d.name);
                let e = features[j].elements;
                let y = choose|y: int| 0 <= y < e.len() && crate::declared::orphans::names_it(#[trigger] e[y], d.name);
                assert(e[y] == "dep:"@ + d.name || e[y] == d.name);
                assert(names_dependency(features[j], d.name));
            }
        }
        let names = crate::declared::features::names_of(features);
        if names.contains(d.name) {
            let j = choose|j: int| 0 <= j < names.len() && names[j] == d.name;
            assert(features[j].name == d.name);
        }
        assert(all[rest.len() as int].name == d.name);
    } else {
        implied_keeps(features, deps.drop_last(), k);
        let x = choose|x: int|
            0 <= x < rest.len() && (#[trigger] rest[x]).name == deps[k].name && rest[x].elements == seq!["dep:"@ + deps[k].name];
        assert(all[x] == rest[x]);
    }
}

/// An optional dependency that no feature names, and that shares its name with none, is a feature of
/// its own.
pub proof fn an_optional_dependency_is_a_feature(m: ManifestView, k: int)
    requires
        0 <= k < m.deps.len(),
        m.deps[k].optional,
        forall|j: int|
            0 <= j < m.features.len() ==> !names_dependency(#[trigger] m.features[j], m.deps[k].name) && m.features[j].name != m.deps[k].name,
    ensures
        exists|x: int|
            0 <= x < decls_of(m).len() && (#[trigger] decls_of(m)[x]).name == m.deps[k].name && decls_of(m)[x].elements == seq![
                "dep:"@ + m.deps[k].name,
            ],
{
    implied_keeps(m.features, m.deps, k);
    let a = written(m.features);
    let b = implied(m.features, m.deps);
    let x = choose|x: int| 0 <= x < b.len() && (#[trigger] b[x]).name == m.deps[k].name && b[x].elements == seq!["dep:"@ + m.deps[k].name];
    assert(decls_of(m)[a.len() + x] == b[x]);
}

// ---------- features in use ----------

proof fn named_is_counted(list: Seq<Chars>, name: Chars)
    requires
        list.contains(name),
    ensures
        count_of(list, name) > 0,
    decreases list.len(),
{
    let k = choose|k: int| 0 <= k < list.len() && list[k] == name;
    if k < list.len() - 1 {
        assert(list.drop_last()[k] == name);
        named_is_counted(list.drop_last(), name);
    }
}

proof fn use_is_counted(sides: Seq<SideView>, scope: Seq<usize>, feature: Chars, n: int, x: int)
    requires
        0 <= x < n,
        sides[scope[x] as int].feature_refs.contains(feature) || sides[scope[x] as int].build_feature_env.contains(env_name(feature)),
    ensures
        uses_upto(sides, scope, feature, n) > 0,
    decreases n,
{
    if x == n - 1 {
        if sides[scope[x] as int].feature_refs.contains(feature) {
            named_is_counted(sides[scope[x] as int].feature_refs, feature);
        }
    } else {
        use_is_counted(sides, scope, feature, n - 1, x);
    }
}

/// A file of a manifest uses a feature: it asks whether it is on, or, as a build script, for its
/// variable; or a target of the manifest requires it.
pub open spec fn uses_feature(p: PassView, i: int, feature: Chars) -> bool {
    ||| exists|k: int| {
        &&& 0 <= k < p.sides.len()
        &&& (#[trigger] p.sides[k]).rust
        &&& is_nearest(p.manifests, p.sides[k].path, i)
        &&& p.sides[k].feature_refs.contains(feature) || p.sides[k].build_feature_env.contains(env_name(feature))
    }
    ||| p.manifests[i].consumers.contains(feature)
}

/// A declared feature that something uses is alive.
pub proof fn a_used_feature_is_alive(p: PassView, i: int, idents: Seq<(usize, Chars)>, k: int)
    requires
        0 <= i < p.manifests.len(),
        p.sides.len() <= usize::MAX,
        0 <= k < decls_of(p.manifests[i]).len(),
        uses_feature(p, i, decls_of(p.manifests[i])[k].name),
    ensures
        consumers_of(p, i, decls_of(p.manifests[i])[k].name) > 0,
        state_of(case_of(p, i, idents), decls_of(p.manifests[i])[k].name) == FeatureState::Alive,
{
    let feature = decls_of(p.manifests[i])[k].name;
    let scope = scope_of(p.manifests, p.sides, i);
    if !p.manifests[i].consumers.contains(feature) {
        let s = choose|s: int| {
            &&& 0 <= s < p.sides.len()
            &&& (#[trigger] p.sides[s]).rust
            &&& is_nearest(p.manifests, p.sides[s].path, i)
            &&& p.sides[s].feature_refs.contains(feature) || p.sides[s].build_feature_env.contains(env_name(feature))
        };
        a_manifest_has_the_files_nearest_to_it(p.manifests, p.sides, i, s);
        let x = choose|x: int| 0 <= x < scope.len() && scope[x] == s as usize;
        use_is_counted(p.sides, scope, feature, scope.len() as int, x);
    }
    let c = case_of(p, i, idents);
    assert(c.counts[k] > 0);
    start_holds(c, c.decls.len() as int, k);
    fix_grows(c.decls, alive_start(c, c.decls.len() as int), feature);
}

/// A feature that turns on a feature of another crate, or something unknown, is alive.
pub proof fn a_feature_that_reaches_out_is_alive(c: CaseView, k: int, j: int)
    requires
        0 <= k < c.decls.len(),
        0 <= j < c.decls[k].elements.len(),
        c.decls[k].elements[j].contains('/'),
    ensures
        state_of(c, c.decls[k].name) == FeatureState::Alive,
{
    assert(crate::declared::features::keeps_alive(c, c.decls[k].elements[j]));
    start_holds(c, c.decls.len() as int, k);
    fix_grows(c.decls, alive_start(c, c.decls.len() as int), c.decls[k].name);
}

/// The variable of a feature is its name in capitals, with `_` for each `-`.
pub proof fn a_feature_has_its_variable(feature: Chars, i: int)
    requires
        0 <= i < crate::text::upper(feature).len(),
    ensures
        env_name(feature).len() == crate::text::upper(feature).len(),
        env_name(feature)[i] == (if crate::text::upper(feature)[i] == '-' { '_' } else { crate::text::upper(feature)[i] }),
{
}

// ---------- settings that nothing reads ----------

spec fn grows(a: FoundView, b: FoundView) -> bool {
    &&& a.findings.len() <= b.findings.len()
    &&& forall|i: int| 0 <= i < a.findings.len() ==> #[trigger] b.findings[i] == a.findings[i]
}

proof fn growing_is_transitive(a: FoundView, b: FoundView, c: FoundView)
    requires
        grows(a, b),
        grows(b, c),
    ensures
        grows(a, c),
{
    assert forall|i: int| 0 <= i < a.findings.len() implies #[trigger] c.findings[i] == a.findings[i] by {
        assert(b.findings[i] == a.findings[i]);
    }
}

proof fn fields_grow(e: KnobsView, c: usize, sibling: bool, s: FoundView, n: int)
    ensures
        grows(s, fields_upto(e, c, sibling, s, n).0),
    decreases n,
{
    if n > 0 {
        fields_grow(e, c, sibling, s, n - 1);
        let (before, unread) = fields_upto(e, c, sibling, s, n - 1);
        growing_is_transitive(s, before, fields_upto(e, c, sibling, s, n).0);
    }
}

proof fn cand_grows(e: KnobsView, c: usize, s: FoundView)
    ensures
        grows(s, cand_step(e, c, s)),
{
    let fields = decl_at(e, c).fields;
    fields_grow(e, c, sibling_read(e, fields), s, fields.len() as int);
    let next = fields_upto(e, c, sibling_read(e, fields), s, fields.len() as int).0;
    if !s.covered.contains(c) {
        growing_is_transitive(s, next, cand_step(e, c, s));
    }
}

proof fn found_grows(e: KnobsView, order: Seq<int>, m: int, n: int)
    requires
        0 <= m <= n,
    ensures
        grows(found_upto(e, order, m), found_upto(e, order, n)),
    decreases n - m,
{
    if m < n {
        found_grows(e, order, m, n - 1);
        cand_grows(e, order[n - 1] as usize, found_upto(e, order, n - 1));
        growing_is_transitive(found_upto(e, order, m), found_upto(e, order, n - 1), found_upto(e, order, n));
    }
}

/// A field that nothing reads.
pub open spec fn is_unread(e: KnobsView, f: FieldView) -> bool {
    &&& !f.skip
    &&& !collides(e, f.name)
    &&& reads_at(e, f.name).prod == 0
    &&& reads_at(e, f.name).test == 0
}

proof fn unread_is_kept(e: KnobsView, c: usize, sibling: bool, s: FoundView, n: int, k: int)
    requires
        0 <= k < n,
        is_unread(e, decl_at(e, c).fields[k]),
        child_at(e.links.sides, e.links.cands, decl_at(e, c).fields[k]) is None,
    ensures
        fields_upto(e, c, sibling, s, n).1.contains(decl_at(e, c).fields[k]),
    decreases n,
{
    let (before, unread) = fields_upto(e, c, sibling, s, n - 1);
    let f = decl_at(e, c).fields[k];
    let now = fields_upto(e, c, sibling, s, n).1;
    if k == n - 1 {
        assert(now[unread.len() as int] == f);
    } else {
        unread_is_kept(e, c, sibling, s, n - 1, k);
        let x = choose|x: int| 0 <= x < unread.len() && unread[x] == f;
        assert(now[x] == f);
    }
}

/// Where the settings report every finding, a plain field of a struct of settings that nothing reads is
/// reported with its struct, unless a field that leads to the struct was reported first.
pub proof fn an_unread_setting_is_reported(e: KnobsView, order: Seq<int>, m: int, k: int)
    requires
        0 <= m < order.len(),
        !e.pass.cfg.require_sibling_read_or_doc,
        !found_upto(e, order, m).covered.contains(order[m] as usize),
        0 <= k < decl_at(e, order[m] as usize).fields.len(),
        is_unread(e, decl_at(e, order[m] as usize).fields[k]),
        child_at(e.links.sides, e.links.cands, decl_at(e, order[m] as usize).fields[k]) is None,
    ensures
        exists|x: int| {
            &&& 0 <= x < found_upto(e, order, order.len() as int).findings.len()
            &&& (#[trigger] found_upto(e, order, order.len() as int).findings[x]).unread.contains(
                decl_at(e, order[m] as usize).fields[k].key,
            )
            &&& found_upto(e, order, order.len() as int).findings[x].struct_name == decl_at(e, order[m] as usize).name
            &&& found_upto(e, order, order.len() as int).findings[x].file == file_at(e, order[m] as usize)
            &&& !found_upto(e, order, order.len() as int).findings[x].test_only
        },
{
    let c = order[m] as usize;
    let s = found_upto(e, order, m);
    let fields = decl_at(e, c).fields;
    let sibling = sibling_read(e, fields);
    let n = fields.len() as int;
    let (next, unread) = fields_upto(e, c, sibling, s, n);
    unread_is_kept(e, c, sibling, s, n, k);
    let y = choose|y: int| 0 <= y < unread.len() && unread[y] == fields[k];
    let (root, keys) = path_to(e.links, c);
    let knob = unread_knob(e, c, unread, keys, source_at(e.links, root));
    assert(field_keys(unread)[y] == fields[k].key);
    assert(knob.unread.contains(fields[k].key));
    let after = cand_step(e, c, s);
    let x = next.findings.len() as int;
    assert(after.findings[x] == knob);
    assert(found_upto(e, order, m + 1) == after);
    found_grows(e, order, m + 1, order.len() as int);
    assert(found_upto(e, order, order.len() as int).findings[x] == knob);
}

proof fn tested_is_kept(e: KnobsView, c: usize, sibling: bool, s: FoundView, n: int, k: int)
    requires
        0 <= k < n,
        !decl_at(e, c).fields[k].skip,
        !collides(e, decl_at(e, c).fields[k].name),
        reads_at(e, decl_at(e, c).fields[k].name).prod == 0,
        reads_at(e, decl_at(e, c).fields[k].name).test > 0,
    ensures
        has_test_knob(fields_upto(e, c, sibling, s, n).0.findings, decl_at(e, c).fields[k].key, file_at(e, c), decl_at(e, c).fields[k].line),
    decreases n,
{
    let (before, unread) = fields_upto(e, c, sibling, s, n - 1);
    let f = decl_at(e, c).fields[k];
    let now = fields_upto(e, c, sibling, s, n).0;
    if k == n - 1 {
        let x = before.findings.len() as int;
        assert(now.findings[x].test_only);
        assert(now.findings[x].unread[0] == f.key);
    } else {
        tested_is_kept(e, c, sibling, s, n - 1, k);
        let x = choose|x: int| {
            &&& 0 <= x < before.findings.len()
            &&& (#[trigger] before.findings[x]).test_only
            &&& before.findings[x].unread.contains(f.key)
            &&& before.findings[x].file == file_at(e, c)
            &&& before.findings[x].start_line == f.line
        };
        assert(now.findings[x] == before.findings[x]);
    }
}

/// A finding says that only tests read a field.
pub open spec fn has_test_knob(list: Seq<KnobView>, key: Chars, file: Chars, line: usize) -> bool {
    exists|x: int| {
        &&& 0 <= x < list.len()
        &&& (#[trigger] list[x]).test_only
        &&& list[x].unread.contains(key)
        &&& list[x].file == file
        &&& list[x].start_line == line
    }
}

/// A field of a struct of settings that only tests read is reported as such.
pub proof fn a_setting_that_only_tests_read_is_reported(e: KnobsView, order: Seq<int>, m: int, k: int)
    requires
        0 <= m < order.len(),
        !found_upto(e, order, m).covered.contains(order[m] as usize),
        0 <= k < decl_at(e, order[m] as usize).fields.len(),
        !decl_at(e, order[m] as usize).fields[k].skip,
        !collides(e, decl_at(e, order[m] as usize).fields[k].name),
        reads_at(e, decl_at(e, order[m] as usize).fields[k].name).prod == 0,
        reads_at(e, decl_at(e, order[m] as usize).fields[k].name).test > 0,
    ensures
        has_test_knob(
            found_upto(e, order, order.len() as int).findings,
            decl_at(e, order[m] as usize).fields[k].key,
            file_at(e, order[m] as usize),
            decl_at(e, order[m] as usize).fields[k].line,
        ),
{
    let c = order[m] as usize;
    let s = found_upto(e, order, m);
    let fields = decl_at(e, c).fields;
    let sibling = sibling_read(e, fields);
    let n = fields.len() as int;
    let f = fields[k];
    tested_is_kept(e, c, sibling, s, n, k);
    let next = fields_upto(e, c, sibling, s, n).0;
    let x = choose|x: int| {
        &&& 0 <= x < next.findings.len()
        &&& (#[trigger] next.findings[x]).test_only
        &&& next.findings[x].unread.contains(f.key)
        &&& next.findings[x].file == file_at(e, c)
        &&& next.findings[x].start_line == f.line
    };
    let after = cand_step(e, c, s);
    assert(after.findings[x] == next.findings[x]);
    assert(found_upto(e, order, m + 1) == after);
    found_grows(e, order, m + 1, order.len() as int);
    assert(found_upto(e, order, order.len() as int).findings[x] == next.findings[x]);
}

} // verus!
