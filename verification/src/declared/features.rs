//! Feature flags nothing checks that gate only orphaned dependencies.

use vstd::prelude::*;

use crate::declared::manifest::{Dep, DepView, FeatureDecl, FeatureDeclView, Manifest, ManifestView};
use crate::declared::orphans::{gates_dep, is_gating, left_out, silencing_root, Pass, PassView};
use crate::declared::scope::{enabled_by, enabled_upto, scope_of};
use crate::declared::side::SideView;
use crate::declared::words::{mentions, word_at};
use crate::text::{
    capped_size, copy_list, has_char, list_has, plus, put, replace, same, starts, starts_with, strip_prefix, swapped, to_upper,
    upper, without_prefix, Chars,
};

verus! {

/// What a feature is.
#[derive(Debug, Clone, Copy, PartialEq, Eq, Structural)]
pub enum FeatureState {
    Alive,
    Noop,
    Dead,
}

/// One `[features]` entry with its verdict.
pub struct Feature {
    pub manifest: String,
    pub name: String,
    pub line: usize,
    pub elements: Vec<String>,
    /// `cfg(feature = "x")` sites, build-script reads and manifest consumers.
    pub consumers: usize,
    /// CI files naming it.
    pub ci_files: Vec<String>,
    pub state: FeatureState,
    /// Optional deps this feature gates directly: (dep, manifest line).
    pub gates: Vec<(String, usize)>,
    /// Dead siblings it enables.
    pub dead_siblings: Vec<String>,
    /// The commit that deleted the last `cfg(feature = "x")`: (short hash, date).
    pub removed_in: Option<(String, String)>,
    pub enabled_by: Vec<String>,
    pub comment: Option<(usize, usize, String)>,
    pub line_text: String,
}

/// A [`Feature`] by its contents.
pub struct FeatureView {
    pub manifest: Chars,
    pub name: Chars,
    pub line: usize,
    pub elements: Seq<Chars>,
    pub consumers: usize,
    pub ci_files: Seq<Chars>,
    pub state: FeatureState,
    pub gates: Seq<(Chars, usize)>,
    pub dead_siblings: Seq<Chars>,
    pub removed_in: Option<(Chars, Chars)>,
    pub enabled_by: Seq<Chars>,
    pub comment: Option<(usize, usize, Chars)>,
    pub line_text: Chars,
}

impl DeepView for Feature {
    type V = FeatureView;

    open spec fn deep_view(&self) -> FeatureView {
        FeatureView {
            manifest: self.manifest@,
            name: self.name@,
            line: self.line,
            elements: self.elements.deep_view(),
            consumers: self.consumers,
            ci_files: self.ci_files.deep_view(),
            state: self.state,
            gates: self.gates.deep_view(),
            dead_siblings: self.dead_siblings.deep_view(),
            removed_in: self.removed_in.deep_view(),
            enabled_by: self.enabled_by.deep_view(),
            comment: self.comment.deep_view(),
            line_text: self.line_text@,
        }
    }
}

// ---------- declarations ----------

/// Some feature names the dependency.
pub open spec fn named_by(features: Seq<FeatureDeclView>, name: Chars) -> bool {
    exists|k: int| 0 <= k < features.len() && gates_dep((#[trigger] features[k]).elements, name)
}

/// The names of features.
pub open spec fn names_of(decls: Seq<FeatureDeclView>) -> Seq<Chars> {
    Seq::new(decls.len(), |k: int| decls[k].name)
}

/// The declared features but `default`.
pub open spec fn written(features: Seq<FeatureDeclView>) -> Seq<FeatureDeclView>
    decreases features.len(),
{
    if features.len() == 0 {
        Seq::empty()
    } else if features.last().name != "default"@ {
        written(features.drop_last()).push(features.last())
    } else {
        written(features.drop_last())
    }
}

/// The implicit `x = ["dep:x"]` of optional dependencies no feature names.
pub open spec fn implied(features: Seq<FeatureDeclView>, deps: Seq<DepView>) -> Seq<FeatureDeclView>
    decreases deps.len(),
{
    if deps.len() == 0 {
        Seq::empty()
    } else {
        let rest = implied(features, deps.drop_last());
        let d = deps.last();
        if d.optional && !named_by(features, d.name) && !names_of(features).contains(d.name) {
            rest.push(
                FeatureDeclView { name: d.name, line: d.line, elements: seq!["dep:"@ + d.name], comment: None },
            )
        } else {
            rest
        }
    }
}

/// The features of a manifest that get a verdict.
pub open spec fn decls_of(m: ManifestView) -> Seq<FeatureDeclView> {
    written(m.features) + implied(m.features, m.deps)
}

fn is_named(features: &Vec<FeatureDecl>, name: &str) -> (r: bool)
    ensures
        r == named_by(features.deep_view(), name@),
{
    let ghost view = features.deep_view();
    let mut k: usize = 0;
    while k < features.len()
        invariant
            k <= features.len(),
            view == features.deep_view(),
            forall|j: int| 0 <= j < k ==> !gates_dep((#[trigger] view[j]).elements, name@),
        decreases features.len() - k,
    {
        assert(view[k as int] == features@[k as int].deep_view());
        if is_gating(&features[k].elements, name) {
            return true;
        }
        k = k + 1;
    }
    false
}

/// The names of features.
fn name_list(decls: &Vec<FeatureDecl>) -> (out: Vec<String>)
    ensures
        out.deep_view() == names_of(decls.deep_view()),
{
    let ghost view = decls.deep_view();
    let mut out: Vec<String> = Vec::new();
    let mut k: usize = 0;
    while k < decls.len()
        invariant
            k <= decls.len(),
            view == decls.deep_view(),
            out.len() == k,
            forall|j: int| 0 <= j < k ==> (#[trigger] out@[j])@ == view[j].name,
        decreases decls.len() - k,
    {
        assert(view[k as int] == decls@[k as int].deep_view());
        out.push(decls[k].name.clone());
        k = k + 1;
    }
    assert(out.deep_view() =~= names_of(view));
    out
}

/// A copy of a comment block.
pub fn copy_comment(c: &Option<(usize, usize, String)>) -> (r: Option<(usize, usize, String)>)
    ensures
        r.deep_view() == c.deep_view(),
{
    match c {
        Some(x) => Some((x.0, x.1, x.2.clone())),
        None => None,
    }
}

fn declarations(m: &Manifest) -> (out: Vec<FeatureDecl>)
    ensures
        out.deep_view() == decls_of(m.deep_view()),
{
    let ghost fv = m.features.deep_view();
    let ghost dv = m.deps.deep_view();
    let mut out: Vec<FeatureDecl> = Vec::new();
    assert(out.deep_view() =~= Seq::<FeatureDeclView>::empty());
    assert(fv.take(0) =~= Seq::<FeatureDeclView>::empty());
    let mut k: usize = 0;
    while k < m.features.len()
        invariant
            k <= m.features.len(),
            fv == m.features.deep_view(),
            out.deep_view() == written(fv.take(k as int)),
        decreases m.features.len() - k,
    {
        assert(fv.take(k + 1).drop_last() =~= fv.take(k as int));
        let f = &m.features[k];
        assert(fv[k as int] == f.deep_view());
        if !same(f.name.as_str(), "default") {
            put(
                &mut out,
                FeatureDecl {
                    name: f.name.clone(),
                    line: f.line,
                    elements: copy_list(&f.elements),
                    comment: copy_comment(&f.comment),
                },
            );
        }
        k = k + 1;
    }
    assert(fv.take(fv.len() as int) =~= fv);
    let names = name_list(&m.features);
    let ghost first = written(fv);
    assert(dv.take(0) =~= Seq::<DepView>::empty());
    assert(first + Seq::<FeatureDeclView>::empty() =~= first);
    let mut k: usize = 0;
    while k < m.deps.len()
        invariant
            k <= m.deps.len(),
            fv == m.features.deep_view(),
            dv == m.deps.deep_view(),
            names.deep_view() == names_of(fv),
            out.deep_view() == first + implied(fv, dv.take(k as int)),
        decreases m.deps.len() - k,
    {
        assert(dv.take(k + 1).drop_last() =~= dv.take(k as int));
        let d = &m.deps[k];
        assert(dv[k as int] == d.deep_view());
        if d.optional && !is_named(&m.features, d.name.as_str()) && !list_has(&names, d.name.as_str()) {
            let mut elements: Vec<String> = Vec::new();
            put(&mut elements, plus("dep:".to_owned(), d.name.as_str()));
            assert(elements.deep_view() =~= seq!["dep:"@ + d.name@]);
            let f = FeatureDecl { name: d.name.clone(), line: d.line, elements, comment: None };
            let ghost x = f.deep_view();
            let ghost rest = implied(fv, dv.take(k as int));
            put(&mut out, f);
            assert(first + rest.push(x) =~= (first + rest).push(x));
        }
        k = k + 1;
    }
    assert(dv.take(dv.len() as int) =~= dv);
    out
}

// ---------- consumers ----------

/// How often a list names `name`.
pub open spec fn count_of(list: Seq<Chars>, name: Chars) -> nat
    decreases list.len(),
{
    if list.len() == 0 {
        0
    } else {
        count_of(list.drop_last(), name) + (if list.last() == name {
            1nat
        } else {
            0nat
        })
    }
}

/// The environment name of a feature.
pub open spec fn env_name(feature: Chars) -> Chars {
    swapped(upper(feature), '-', '_')
}

/// How often the first `n` sides of a scope consume a feature.
pub open spec fn uses_upto(sides: Seq<SideView>, scope: Seq<usize>, feature: Chars, n: int) -> nat
    decreases n,
{
    if n <= 0 {
        0
    } else {
        let s = sides[scope[n - 1] as int];
        uses_upto(sides, scope, feature, n - 1) + count_of(s.feature_refs, feature) + (if s.build_feature_env.contains(
            env_name(feature),
        ) {
            1nat
        } else {
            0nat
        })
    }
}

/// `cfg(feature = "x")` sites, build-script reads and manifest consumers of a feature.
pub open spec fn consumers_of(p: PassView, i: int, feature: Chars) -> usize {
    let scope = scope_of(p.manifests, p.sides, i);
    capped_size(
        uses_upto(p.sides, scope, feature, scope.len() as int) + (if p.manifests[i].consumers.contains(feature) {
            1nat
        } else {
            0nat
        }),
    )
}

fn count_in(list: &Vec<String>, name: &str) -> (n: usize)
    ensures
        n == count_of(list.deep_view(), name@),
{
    let ghost view = list.deep_view();
    let mut n: usize = 0;
    let mut k: usize = 0;
    assert(view.take(0) =~= Seq::<Chars>::empty());
    while k < list.len()
        invariant
            k <= list.len(),
            n <= k,
            view == list.deep_view(),
            n == count_of(view.take(k as int), name@),
        decreases list.len() - k,
    {
        assert(view.take(k + 1).drop_last() =~= view.take(k as int));
        assert(view[k as int] == list@[k as int]@);
        if same(list[k].as_str(), name) {
            n = n + 1;
        }
        k = k + 1;
    }
    assert(view.take(view.len() as int) =~= view);
    n
}

fn consumer_count(p: &Pass, i: usize, feature: &str) -> (n: usize)
    requires
        p.ok(),
        i < p.manifests.len(),
    ensures
        n == consumers_of(p@, i as int, feature@),
{
    let ghost sv = p.sides.deep_view();
    assert(p@.manifests[i as int] == p.manifests@[i as int].deep_view());
    let env = replace(to_upper(feature).as_str(), '-', '_');
    let scope = p.scope_at(i);
    let mut n: usize = 0;
    let mut k: usize = 0;
    while k < scope.len()
        invariant
            k <= scope.len(),
            sv == p.sides.deep_view(),
            env@ == env_name(feature@),
            forall|k: int| 0 <= k < scope.len() ==> #[trigger] scope@[k] < p.sides.len(),
            n == capped_size(uses_upto(sv, scope@, feature@, k as int)),
        decreases scope.len() - k,
    {
        assert(scope@[k as int] < p.sides.len());
        let s = &p.sides[scope[k]];
        assert(sv[scope@[k as int] as int] == s.deep_view());
        n = n.saturating_add(count_in(&s.feature_refs, feature));
        if list_has(&s.build_feature_env, env.as_str()) {
            n = n.saturating_add(1);
        }
        k = k + 1;
    }
    if list_has(&p.manifests[i].consumers, feature) {
        n = n.saturating_add(1);
    }
    n
}

// ---------- verdicts ----------

/// What the verdicts of one manifest rest on.
pub struct CaseView {
    pub decls: Seq<FeatureDeclView>,
    /// How often each is consumed.
    pub counts: Seq<usize>,
    /// Every feature name, `default` too.
    pub names: Seq<Chars>,
    /// Names of optional dependencies.
    pub optional: Seq<Chars>,
    /// In-code names of orphans.
    pub orphaned: Seq<Chars>,
}

/// What the verdicts of one manifest rest on.
pub struct Case {
    pub decls: Vec<FeatureDecl>,
    pub decl_names: Vec<String>,
    pub counts: Vec<usize>,
    pub names: Vec<String>,
    pub optional: Vec<String>,
    pub orphaned: Vec<String>,
}

impl View for Case {
    type V = CaseView;

    open spec fn view(&self) -> CaseView {
        CaseView {
            decls: self.decls.deep_view(),
            counts: self.counts@,
            names: self.names.deep_view(),
            optional: self.optional.deep_view(),
            orphaned: self.orphaned.deep_view(),
        }
    }
}

impl Case {
    /// A count and a name for each declaration.
    pub open spec fn ok(&self) -> bool {
        self.counts.len() == self.decls.len() && self.decl_names.deep_view() == names_of(self.decls.deep_view())
    }
}

/// `dep:x`, or the bare name of an optional dependency no feature is named after.
pub open spec fn dep_element(c: CaseView, e: Chars) -> bool {
    starts(e, "dep:"@) || (!names_of(c.decls).contains(e) && c.optional.contains(e))
}

/// The dependency an element names.
pub open spec fn dep_named(e: Chars) -> Chars {
    match without_prefix(e, "dep:"@) {
        Some(n) => n,
        None => e,
    }
}

/// The dependency of an element is an orphan.
pub open spec fn dep_orphaned(c: CaseView, e: Chars) -> bool {
    c.orphaned.contains(swapped(dep_named(e), '-', '_'))
}

/// `x/f` forwards, and an element that is none of the known kinds keeps the feature alive.
pub open spec fn keeps_alive(c: CaseView, e: Chars) -> bool {
    e.contains('/') || (!dep_element(c, e) && !names_of(c.decls).contains(e) && !c.names.contains(e))
}

/// Some element keeps the feature alive by itself.
pub open spec fn some_keeps(c: CaseView, elements: Seq<Chars>) -> bool {
    exists|k: int| 0 <= k < elements.len() && keeps_alive(c, #[trigger] elements[k])
}

/// Some element is one of `names`.
pub open spec fn some_in(elements: Seq<Chars>, names: Seq<Chars>) -> bool {
    exists|k: int| 0 <= k < elements.len() && names.contains(#[trigger] elements[k])
}

/// The features that are alive by themselves, among the first `n`.
pub open spec fn alive_start(c: CaseView, n: int) -> Seq<Chars>
    decreases n,
{
    if n <= 0 {
        Seq::empty()
    } else if c.counts[n - 1] > 0 || some_keeps(c, c.decls[n - 1].elements) {
        alive_start(c, n - 1).push(c.decls[n - 1].name)
    } else {
        alive_start(c, n - 1)
    }
}

/// The features among the first `n` that are not in `alive` and enable one that is.
pub open spec fn alive_more(decls: Seq<FeatureDeclView>, alive: Seq<Chars>, n: int) -> Seq<Chars>
    decreases n,
{
    if n <= 0 {
        Seq::empty()
    } else if !alive.contains(decls[n - 1].name) && some_in(decls[n - 1].elements, alive) {
        alive_more(decls, alive, n - 1).push(decls[n - 1].name)
    } else {
        alive_more(decls, alive, n - 1)
    }
}

/// How many of the first `n` features are not in `alive`.
pub open spec fn others(decls: Seq<FeatureDeclView>, alive: Seq<Chars>, n: int) -> nat
    decreases n,
{
    if n <= 0 {
        0
    } else {
        others(decls, alive, n - 1) + (if alive.contains(decls[n - 1].name) {
            0nat
        } else {
            1nat
        })
    }
}

proof fn others_shrink(decls: Seq<FeatureDeclView>, a: Seq<Chars>, b: Seq<Chars>, n: int)
    requires
        0 <= n <= decls.len(),
        forall|x: Chars| a.contains(x) ==> #[trigger] b.contains(x),
    ensures
        others(decls, b, n) <= others(decls, a, n),
        (exists|k: int| 0 <= k < n && !a.contains((#[trigger] decls[k]).name) && b.contains(decls[k].name)) ==> others(
            decls,
            b,
            n,
        ) < others(decls, a, n),
    decreases n,
{
    if n > 0 {
        others_shrink(decls, a, b, n - 1);
        if exists|k: int| 0 <= k < n && !a.contains((#[trigger] decls[k]).name) && b.contains(decls[k].name) {
            let k = choose|k: int| 0 <= k < n && !a.contains((#[trigger] decls[k]).name) && b.contains(decls[k].name);
            if k < n - 1 {
                assert(others(decls, b, n - 1) < others(decls, a, n - 1));
            }
        }
    }
}

proof fn more_are_new(decls: Seq<FeatureDeclView>, alive: Seq<Chars>, n: int)
    requires
        0 <= n <= decls.len(),
    ensures
        alive_more(decls, alive, n).len() > 0 ==> exists|k: int|
            0 <= k < n && !alive.contains((#[trigger] decls[k]).name) && alive_more(decls, alive, n).contains(decls[k].name),
    decreases n,
{
    if n > 0 {
        more_are_new(decls, alive, n - 1);
        let before = alive_more(decls, alive, n - 1);
        let all = alive_more(decls, alive, n);
        if all.len() > before.len() {
            assert(all.last() == decls[n - 1].name);
            assert(all.contains(decls[n - 1].name));
            assert(!alive.contains(decls[n - 1].name));
        }
    }
}

/// A round that finds an enabling feature leaves fewer of the others.
pub proof fn round_shrinks(decls: Seq<FeatureDeclView>, alive: Seq<Chars>)
    ensures
        alive_more(decls, alive, decls.len() as int).len() > 0 ==> others(
            decls,
            alive + alive_more(decls, alive, decls.len() as int),
            decls.len() as int,
        ) < others(decls, alive, decls.len() as int),
{
    let n = decls.len() as int;
    let more = alive_more(decls, alive, n);
    let all = alive + more;
    more_are_new(decls, alive, n);
    assert forall|x: Chars| alive.contains(x) implies #[trigger] all.contains(x) by {
        let k = choose|k: int| 0 <= k < alive.len() && alive[k] == x;
        assert(all[k] == x);
    }
    assert forall|x: Chars| more.contains(x) implies #[trigger] all.contains(x) by {
        let k = choose|k: int| 0 <= k < more.len() && more[k] == x;
        assert(all[alive.len() + k] == x);
    }
    others_shrink(decls, alive, all, n);
}

/// `alive` with every feature that enables an alive one, over and over.
pub open spec fn alive_fix(decls: Seq<FeatureDeclView>, alive: Seq<Chars>) -> Seq<Chars>
    decreases others(decls, alive, decls.len() as int),
{
    let more = alive_more(decls, alive, decls.len() as int);
    if more.len() == 0 {
        alive
    } else {
        proof {
            round_shrinks(decls, alive);
        }
        alive_fix(decls, alive + more)
    }
}

/// The features that are alive: consumed, forwarding, with an unknown element, or enabling one that
/// is.
pub open spec fn alive_of(c: CaseView) -> Seq<Chars> {
    alive_fix(c.decls, alive_start(c, c.decls.len() as int))
}

/// The features among the first `n` without elements or consumers.
pub open spec fn noop_upto(c: CaseView, n: int) -> Seq<Chars>
    decreases n,
{
    if n <= 0 {
        Seq::empty()
    } else if c.decls[n - 1].elements.len() == 0 && c.counts[n - 1] == 0 {
        noop_upto(c, n - 1).push(c.decls[n - 1].name)
    } else {
        noop_upto(c, n - 1)
    }
}

/// The features among the first `n` that are in neither list.
pub open spec fn in_neither(decls: Seq<FeatureDeclView>, a: Seq<Chars>, b: Seq<Chars>, n: int) -> Seq<Chars>
    decreases n,
{
    if n <= 0 {
        Seq::empty()
    } else if !a.contains(decls[n - 1].name) && !b.contains(decls[n - 1].name) {
        in_neither(decls, a, b, n - 1).push(decls[n - 1].name)
    } else {
        in_neither(decls, a, b, n - 1)
    }
}

/// An element that does not keep a feature from being dead: an orphaned dependency or a dead sibling.
pub open spec fn lifeless(c: CaseView, dead: Seq<Chars>, e: Chars) -> bool {
    if dep_element(c, e) {
        dep_orphaned(c, e)
    } else {
        dead.contains(e)
    }
}

/// Every element is lifeless.
pub open spec fn all_lifeless(c: CaseView, dead: Seq<Chars>, elements: Seq<Chars>) -> bool {
    forall|k: int| 0 <= k < elements.len() ==> lifeless(c, dead, #[trigger] elements[k])
}

/// The features among the first `n` that are in `dead` with an element that has life.
pub open spec fn dropped(c: CaseView, dead: Seq<Chars>, n: int) -> Seq<Chars>
    decreases n,
{
    if n <= 0 {
        Seq::empty()
    } else if dead.contains(c.decls[n - 1].name) && !all_lifeless(c, dead, c.decls[n - 1].elements) {
        dropped(c, dead, n - 1).push(c.decls[n - 1].name)
    } else {
        dropped(c, dead, n - 1)
    }
}

/// `list` without what `out` holds.
pub open spec fn without(list: Seq<Chars>, out: Seq<Chars>) -> Seq<Chars>
    decreases list.len(),
{
    if list.len() == 0 {
        Seq::empty()
    } else if out.contains(list.last()) {
        without(list.drop_last(), out)
    } else {
        without(list.drop_last(), out).push(list.last())
    }
}

proof fn without_shrinks(list: Seq<Chars>, out: Seq<Chars>)
    ensures
        without(list, out).len() <= list.len(),
        (exists|x: Chars| #[trigger] out.contains(x) && list.contains(x)) ==> without(list, out).len() < list.len(),
    decreases list.len(),
{
    if list.len() > 0 {
        without_shrinks(list.drop_last(), out);
        if exists|x: Chars| #[trigger] out.contains(x) && list.contains(x) {
            let x = choose|x: Chars| #[trigger] out.contains(x) && list.contains(x);
            let k = choose|k: int| 0 <= k < list.len() && list[k] == x;
            if !out.contains(list.last()) {
                assert(list.drop_last()[k] == x);
                assert(list.drop_last().contains(x));
            }
        }
    }
}

proof fn dropped_are_dead(c: CaseView, dead: Seq<Chars>, n: int)
    requires
        0 <= n,
    ensures
        forall|k: int| 0 <= k < dropped(c, dead, n).len() ==> dead.contains(#[trigger] dropped(c, dead, n)[k]),
    decreases n,
{
    if n > 0 {
        dropped_are_dead(c, dead, n - 1);
        let before = dropped(c, dead, n - 1);
        assert forall|k: int| 0 <= k < dropped(c, dead, n).len() implies dead.contains(#[trigger] dropped(c, dead, n)[k]) by {
            if k < before.len() {
                assert(dead.contains(before[k]));
            }
        }
    }
}

/// A round that drops a feature leaves fewer candidates.
pub proof fn dead_shrinks(c: CaseView, dead: Seq<Chars>)
    ensures
        dropped(c, dead, c.decls.len() as int).len() > 0 ==> without(dead, dropped(c, dead, c.decls.len() as int)).len()
            < dead.len(),
{
    let out = dropped(c, dead, c.decls.len() as int);
    if out.len() > 0 {
        dropped_are_dead(c, dead, c.decls.len() as int);
        assert(dead.contains(out[0]));
        assert(out.contains(out[0]));
        without_shrinks(dead, out);
    }
}

/// `dead` without every feature that has an element with life, over and over.
pub open spec fn dead_fix(c: CaseView, dead: Seq<Chars>) -> Seq<Chars>
    decreases dead.len(),
{
    let out = dropped(c, dead, c.decls.len() as int);
    if out.len() == 0 {
        dead
    } else {
        proof {
            dead_shrinks(c, dead);
        }
        dead_fix(c, without(dead, out))
    }
}

/// The features that are dead: each element is an orphaned dependency or a dead sibling.
pub open spec fn dead_of(c: CaseView) -> Seq<Chars> {
    dead_fix(c, in_neither(c.decls, alive_of(c), noop_upto(c, c.decls.len() as int), c.decls.len() as int))
}

/// The verdict on a name.
pub open spec fn state_of(c: CaseView, name: Chars) -> FeatureState {
    if alive_of(c).contains(name) {
        FeatureState::Alive
    } else if noop_upto(c, c.decls.len() as int).contains(name) {
        FeatureState::Noop
    } else if dead_of(c).contains(name) {
        FeatureState::Dead
    } else {
        FeatureState::Alive
    }
}

impl Case {
    fn is_dep_element(&self, e: &str) -> (r: bool)
        requires
            self.ok(),
        ensures
            r == dep_element(self@, e@),
    {
        starts_with(e, "dep:") || (!list_has(&self.decl_names, e) && list_has(&self.optional, e))
    }

    fn is_lifeless(&self, dead: &Vec<String>, e: &str) -> (r: bool)
        requires
            self.ok(),
        ensures
            r == lifeless(self@, dead.deep_view(), e@),
    {
        if self.is_dep_element(e) {
            list_has(&self.orphaned, replace(bare_dep(e).as_str(), '-', '_').as_str())
        } else {
            list_has(dead, e)
        }
    }

    fn is_kept(&self, elements: &Vec<String>) -> (r: bool)
        requires
            self.ok(),
        ensures
            r == some_keeps(self@, elements.deep_view()),
    {
        let ghost view = elements.deep_view();
        let mut k: usize = 0;
        while k < elements.len()
            invariant
                k <= elements.len(),
                self.ok(),
                view == elements.deep_view(),
                forall|j: int| 0 <= j < k ==> !keeps_alive(self@, #[trigger] view[j]),
            decreases elements.len() - k,
        {
            assert(view[k as int] == elements@[k as int]@);
            let e = elements[k].as_str();
            if has_char(e, '/') || (!self.is_dep_element(e) && !list_has(&self.decl_names, e) && !list_has(&self.names, e)) {
                return true;
            }
            k = k + 1;
        }
        false
    }

    fn are_lifeless(&self, dead: &Vec<String>, elements: &Vec<String>) -> (r: bool)
        requires
            self.ok(),
        ensures
            r == all_lifeless(self@, dead.deep_view(), elements.deep_view()),
    {
        let ghost view = elements.deep_view();
        let mut k: usize = 0;
        while k < elements.len()
            invariant
                k <= elements.len(),
                self.ok(),
                view == elements.deep_view(),
                forall|j: int| 0 <= j < k ==> lifeless(self@, dead.deep_view(), #[trigger] view[j]),
            decreases elements.len() - k,
        {
            assert(view[k as int] == elements@[k as int]@);
            if !self.is_lifeless(dead, elements[k].as_str()) {
                assert(!lifeless(self@, dead.deep_view(), view[k as int]));
                return false;
            }
            k = k + 1;
        }
        true
    }

    /// The features that are alive.
    pub fn alive(&self) -> (out: Vec<String>)
        requires
            self.ok(),
        ensures
            out.deep_view() == alive_of(self@),
    {
        let ghost dv = self.decls.deep_view();
        let mut out: Vec<String> = Vec::new();
        assert(out.deep_view() =~= Seq::<Chars>::empty());
        let mut k: usize = 0;
        while k < self.decls.len()
            invariant
                k <= self.decls.len(),
                self.ok(),
                dv == self.decls.deep_view(),
                out.deep_view() == alive_start(self@, k as int),
            decreases self.decls.len() - k,
        {
            assert(dv[k as int] == self.decls@[k as int].deep_view());
            if self.counts[k] > 0 || self.is_kept(&self.decls[k].elements) {
                put(&mut out, self.decls[k].name.clone());
            }
            k = k + 1;
        }
        assert(dv.len() == self.decls.len());
        loop
            invariant
                self.ok(),
                dv == self.decls.deep_view(),
                alive_of(self@) == alive_fix(dv, out.deep_view()),
            decreases others(dv, out.deep_view(), dv.len() as int),
        {
            let more = enabling(&self.decls, &out);
            proof {
                round_shrinks(dv, out.deep_view());
            }
            assert(more.len() == more.deep_view().len());
            if more.len() == 0 {
                return out;
            }
            crate::text::extend(&mut out, &more);
        }
    }

    fn noop(&self) -> (out: Vec<String>)
        requires
            self.ok(),
        ensures
            out.deep_view() == noop_upto(self@, self@.decls.len() as int),
    {
        let ghost dv = self.decls.deep_view();
        let mut out: Vec<String> = Vec::new();
        assert(out.deep_view() =~= Seq::<Chars>::empty());
        let mut k: usize = 0;
        while k < self.decls.len()
            invariant
                k <= self.decls.len(),
                self.ok(),
                dv == self.decls.deep_view(),
                out.deep_view() == noop_upto(self@, k as int),
            decreases self.decls.len() - k,
        {
            assert(dv[k as int] == self.decls@[k as int].deep_view());
            assert(self.decls@[k as int].elements.len() == dv[k as int].elements.len());
            if self.decls[k].elements.len() == 0 && self.counts[k] == 0 {
                put(&mut out, self.decls[k].name.clone());
            }
            k = k + 1;
        }
        assert(dv.len() == self.decls.len());
        out
    }

    fn with_life(&self, dead: &Vec<String>) -> (out: Vec<String>)
        requires
            self.ok(),
        ensures
            out.deep_view() == dropped(self@, dead.deep_view(), self@.decls.len() as int),
    {
        let ghost dv = self.decls.deep_view();
        let mut out: Vec<String> = Vec::new();
        assert(out.deep_view() =~= Seq::<Chars>::empty());
        let mut k: usize = 0;
        while k < self.decls.len()
            invariant
                k <= self.decls.len(),
                self.ok(),
                dv == self.decls.deep_view(),
                out.deep_view() == dropped(self@, dead.deep_view(), k as int),
            decreases self.decls.len() - k,
        {
            assert(dv[k as int] == self.decls@[k as int].deep_view());
            if list_has(dead, self.decls[k].name.as_str()) && !self.are_lifeless(dead, &self.decls[k].elements) {
                put(&mut out, self.decls[k].name.clone());
            }
            k = k + 1;
        }
        assert(dv.len() == self.decls.len());
        out
    }

    fn dead(&self, alive: &Vec<String>, noop: &Vec<String>) -> (out: Vec<String>)
        requires
            self.ok(),
            alive.deep_view() == alive_of(self@),
            noop.deep_view() == noop_upto(self@, self@.decls.len() as int),
        ensures
            out.deep_view() == dead_of(self@),
    {
        let ghost dv = self.decls.deep_view();
        let mut out: Vec<String> = Vec::new();
        assert(out.deep_view() =~= Seq::<Chars>::empty());
        let mut k: usize = 0;
        while k < self.decls.len()
            invariant
                k <= self.decls.len(),
                dv == self.decls.deep_view(),
                out.deep_view() == in_neither(dv, alive.deep_view(), noop.deep_view(), k as int),
            decreases self.decls.len() - k,
        {
            assert(dv[k as int] == self.decls@[k as int].deep_view());
            let name = self.decls[k].name.as_str();
            if !list_has(alive, name) && !list_has(noop, name) {
                put(&mut out, name.to_owned());
            }
            k = k + 1;
        }
        assert(dv.len() == self.decls.len());
        loop
            invariant
                self.ok(),
                dv == self.decls.deep_view(),
                dead_of(self@) == dead_fix(self@, out.deep_view()),
            decreases out.deep_view().len(),
        {
            let gone = self.with_life(&out);
            proof {
                dead_shrinks(self@, out.deep_view());
            }
            assert(gone.len() == gone.deep_view().len());
            if gone.len() == 0 {
                return out;
            }
            out = remaining(&out, &gone);
        }
    }
}

fn bare_dep(e: &str) -> (r: String)
    ensures
        r@ == dep_named(e@),
{
    match strip_prefix(e, "dep:") {
        Some(n) => n,
        None => e.to_owned(),
    }
}

fn any_in(elements: &Vec<String>, names: &Vec<String>) -> (r: bool)
    ensures
        r == some_in(elements.deep_view(), names.deep_view()),
{
    let ghost view = elements.deep_view();
    let mut k: usize = 0;
    while k < elements.len()
        invariant
            k <= elements.len(),
            view == elements.deep_view(),
            forall|j: int| 0 <= j < k ==> !names.deep_view().contains(#[trigger] view[j]),
        decreases elements.len() - k,
    {
        assert(view[k as int] == elements@[k as int]@);
        if list_has(names, elements[k].as_str()) {
            assert(names.deep_view().contains(view[k as int]));
            return true;
        }
        k = k + 1;
    }
    false
}

fn enabling(decls: &Vec<FeatureDecl>, alive: &Vec<String>) -> (out: Vec<String>)
    ensures
        out.deep_view() == alive_more(decls.deep_view(), alive.deep_view(), decls.len() as int),
{
    let ghost dv = decls.deep_view();
    let mut out: Vec<String> = Vec::new();
    assert(out.deep_view() =~= Seq::<Chars>::empty());
    let mut k: usize = 0;
    while k < decls.len()
        invariant
            k <= decls.len(),
            dv == decls.deep_view(),
            out.deep_view() == alive_more(dv, alive.deep_view(), k as int),
        decreases decls.len() - k,
    {
        assert(dv[k as int] == decls@[k as int].deep_view());
        if !list_has(alive, decls[k].name.as_str()) && any_in(&decls[k].elements, alive) {
            put(&mut out, decls[k].name.clone());
        }
        k = k + 1;
    }
    out
}

fn remaining(list: &Vec<String>, gone: &Vec<String>) -> (out: Vec<String>)
    ensures
        out.deep_view() == without(list.deep_view(), gone.deep_view()),
{
    let ghost view = list.deep_view();
    let mut out: Vec<String> = Vec::new();
    assert(out.deep_view() =~= Seq::<Chars>::empty());
    assert(view.take(0) =~= Seq::<Chars>::empty());
    let mut k: usize = 0;
    while k < list.len()
        invariant
            k <= list.len(),
            view == list.deep_view(),
            out.deep_view() == without(view.take(k as int), gone.deep_view()),
        decreases list.len() - k,
    {
        assert(view.take(k + 1).drop_last() =~= view.take(k as int));
        assert(view[k as int] == list@[k as int]@);
        if !list_has(gone, list[k].as_str()) {
            put(&mut out, list[k].clone());
        }
        k = k + 1;
    }
    assert(view.take(view.len() as int) =~= view);
    out
}

// ---------- features of a manifest ----------

/// Names of optional dependencies.
pub open spec fn optional_names(deps: Seq<DepView>) -> Seq<Chars>
    decreases deps.len(),
{
    if deps.len() == 0 {
        Seq::empty()
    } else if deps.last().optional {
        optional_names(deps.drop_last()).push(deps.last().name)
    } else {
        optional_names(deps.drop_last())
    }
}

/// In-code names of the orphans of manifest `i`.
pub open spec fn idents_at(idents: Seq<(usize, Chars)>, i: int) -> Seq<Chars>
    decreases idents.len(),
{
    if idents.len() == 0 {
        Seq::empty()
    } else if idents.last().0 == i {
        idents_at(idents.drop_last(), i).push(idents.last().1)
    } else {
        idents_at(idents.drop_last(), i)
    }
}

/// What the verdicts of manifest `i` rest on.
pub open spec fn case_of(p: PassView, i: int, idents: Seq<(usize, Chars)>) -> CaseView {
    let m = p.manifests[i];
    let decls = decls_of(m);
    CaseView {
        decls,
        counts: Seq::new(decls.len(), |k: int| consumers_of(p, i, decls[k].name)),
        names: names_of(m.features),
        optional: optional_names(m.deps),
        orphaned: idents_at(idents, i),
    }
}

/// The first dependency of a name, from `k` on: its name and line.
pub open spec fn dep_line(deps: Seq<DepView>, name: Chars, k: int) -> Option<(Chars, usize)>
    decreases deps.len() - k,
{
    if k < 0 || k >= deps.len() {
        None
    } else if deps[k].name == name {
        Some((deps[k].name, deps[k].line))
    } else {
        dep_line(deps, name, k + 1)
    }
}

/// The dependencies the elements gate: (dep, manifest line).
pub open spec fn gated(c: CaseView, deps: Seq<DepView>, elements: Seq<Chars>) -> Seq<(Chars, usize)>
    decreases elements.len(),
{
    if elements.len() == 0 {
        Seq::empty()
    } else {
        let rest = gated(c, deps, elements.drop_last());
        if dep_element(c, elements.last()) {
            match dep_line(deps, dep_named(elements.last()), 0) {
                Some(x) => rest.push(x),
                None => rest,
            }
        } else {
            rest
        }
    }
}

/// The dead features among the elements.
pub open spec fn dead_among(dead: Seq<Chars>, elements: Seq<Chars>) -> Seq<Chars>
    decreases elements.len(),
{
    if elements.len() == 0 {
        Seq::empty()
    } else {
        let rest = dead_among(dead, elements.drop_last());
        if dead.contains(elements.last()) && !starts(elements.last(), "dep:"@) {
            rest.push(elements.last())
        } else {
            rest
        }
    }
}

/// The CI files that name a feature.
pub open spec fn ci_naming(ci: Seq<(Chars, Chars)>, name: Chars) -> Seq<Chars>
    decreases ci.len(),
{
    if ci.len() == 0 {
        Seq::empty()
    } else {
        let rest = ci_naming(ci.drop_last(), name);
        if mentions(ci.last().1, name) {
            rest.push(ci.last().0)
        } else {
            rest
        }
    }
}

/// The verdict on declaration `k` of manifest `i`.
pub open spec fn feature_at(p: PassView, i: int, c: CaseView, ci: Seq<(Chars, Chars)>, k: int) -> FeatureView {
    let m = p.manifests[i];
    let f = c.decls[k];
    FeatureView {
        manifest: m.path,
        name: f.name,
        line: f.line,
        elements: f.elements,
        consumers: c.counts[k],
        ci_files: ci_naming(ci, f.name),
        state: state_of(c, f.name),
        gates: gated(c, m.deps, f.elements),
        dead_siblings: dead_among(dead_of(c), f.elements),
        removed_in: None,
        enabled_by: enabled_upto(p.manifests, i, f.name, p.manifests.len() as int),
        comment: f.comment,
        line_text: Seq::empty(),
    }
}

/// The verdicts on the features of manifest `i`.
pub open spec fn features_at(p: PassView, i: int, idents: Seq<(usize, Chars)>, ci: Seq<(Chars, Chars)>) -> Seq<FeatureView> {
    let c = case_of(p, i, idents);
    if left_out(p, i) {
        Seq::empty()
    } else {
        Seq::new(c.decls.len(), |k: int| feature_at(p, i, c, ci, k))
    }
}

/// The verdicts on the features of the first `n` manifests.
pub open spec fn features_upto(p: PassView, idents: Seq<(usize, Chars)>, ci: Seq<(Chars, Chars)>, n: int) -> Seq<FeatureView>
    decreases n,
{
    if n <= 0 {
        Seq::empty()
    } else {
        features_upto(p, idents, ci, n - 1) + features_at(p, n - 1, idents, ci)
    }
}

fn optional_list(deps: &Vec<Dep>) -> (out: Vec<String>)
    ensures
        out.deep_view() == optional_names(deps.deep_view()),
{
    let ghost view = deps.deep_view();
    let mut out: Vec<String> = Vec::new();
    assert(out.deep_view() =~= Seq::<Chars>::empty());
    assert(view.take(0) =~= Seq::<DepView>::empty());
    let mut k: usize = 0;
    while k < deps.len()
        invariant
            k <= deps.len(),
            view == deps.deep_view(),
            out.deep_view() == optional_names(view.take(k as int)),
        decreases deps.len() - k,
    {
        assert(view.take(k + 1).drop_last() =~= view.take(k as int));
        assert(view[k as int] == deps@[k as int].deep_view());
        if deps[k].optional {
            put(&mut out, deps[k].name.clone());
        }
        k = k + 1;
    }
    assert(view.take(view.len() as int) =~= view);
    out
}

fn ident_list(idents: &Vec<(usize, String)>, i: usize) -> (out: Vec<String>)
    ensures
        out.deep_view() == idents_at(idents.deep_view(), i as int),
{
    let ghost view = idents.deep_view();
    let mut out: Vec<String> = Vec::new();
    assert(out.deep_view() =~= Seq::<Chars>::empty());
    assert(view.take(0) =~= Seq::<(usize, Chars)>::empty());
    let mut k: usize = 0;
    while k < idents.len()
        invariant
            k <= idents.len(),
            view == idents.deep_view(),
            out.deep_view() == idents_at(view.take(k as int), i as int),
        decreases idents.len() - k,
    {
        assert(view.take(k + 1).drop_last() =~= view.take(k as int));
        assert(view[k as int] == idents@[k as int].deep_view());
        if idents[k].0 == i {
            put(&mut out, idents[k].1.clone());
        }
        k = k + 1;
    }
    assert(view.take(view.len() as int) =~= view);
    out
}

fn line_of_dep(deps: &Vec<Dep>, name: &str) -> (r: Option<(String, usize)>)
    ensures
        r.deep_view() == dep_line(deps.deep_view(), name@, 0),
{
    let ghost view = deps.deep_view();
    let mut k: usize = 0;
    while k < deps.len()
        invariant
            k <= deps.len(),
            view == deps.deep_view(),
            dep_line(view, name@, 0) == dep_line(view, name@, k as int),
        decreases deps.len() - k,
    {
        assert(view[k as int] == deps@[k as int].deep_view());
        if same(deps[k].name.as_str(), name) {
            return Some((deps[k].name.clone(), deps[k].line));
        }
        k = k + 1;
    }
    None
}

fn gate_list(c: &Case, deps: &Vec<Dep>, elements: &Vec<String>) -> (out: Vec<(String, usize)>)
    requires
        c.ok(),
    ensures
        out.deep_view() == gated(c@, deps.deep_view(), elements.deep_view()),
{
    let ghost view = elements.deep_view();
    let mut out: Vec<(String, usize)> = Vec::new();
    assert(out.deep_view() =~= Seq::<(Chars, usize)>::empty());
    assert(view.take(0) =~= Seq::<Chars>::empty());
    let mut k: usize = 0;
    while k < elements.len()
        invariant
            k <= elements.len(),
            c.ok(),
            view == elements.deep_view(),
            out.deep_view() == gated(c@, deps.deep_view(), view.take(k as int)),
        decreases elements.len() - k,
    {
        assert(view.take(k + 1).drop_last() =~= view.take(k as int));
        assert(view[k as int] == elements@[k as int]@);
        if c.is_dep_element(elements[k].as_str()) {
            if let Some(x) = line_of_dep(deps, bare_dep(elements[k].as_str()).as_str()) {
                put(&mut out, x);
            }
        }
        k = k + 1;
    }
    assert(view.take(view.len() as int) =~= view);
    out
}

fn dead_list(dead: &Vec<String>, elements: &Vec<String>) -> (out: Vec<String>)
    ensures
        out.deep_view() == dead_among(dead.deep_view(), elements.deep_view()),
{
    let ghost view = elements.deep_view();
    let mut out: Vec<String> = Vec::new();
    assert(out.deep_view() =~= Seq::<Chars>::empty());
    assert(view.take(0) =~= Seq::<Chars>::empty());
    let mut k: usize = 0;
    while k < elements.len()
        invariant
            k <= elements.len(),
            view == elements.deep_view(),
            out.deep_view() == dead_among(dead.deep_view(), view.take(k as int)),
        decreases elements.len() - k,
    {
        assert(view.take(k + 1).drop_last() =~= view.take(k as int));
        assert(view[k as int] == elements@[k as int]@);
        if list_has(dead, elements[k].as_str()) && !starts_with(elements[k].as_str(), "dep:") {
            put(&mut out, elements[k].clone());
        }
        k = k + 1;
    }
    assert(view.take(view.len() as int) =~= view);
    out
}

fn ci_list(ci: &Vec<(String, String)>, name: &str) -> (out: Vec<String>)
    ensures
        out.deep_view() == ci_naming(ci.deep_view(), name@),
{
    let ghost view = ci.deep_view();
    let mut out: Vec<String> = Vec::new();
    assert(out.deep_view() =~= Seq::<Chars>::empty());
    assert(view.take(0) =~= Seq::<(Chars, Chars)>::empty());
    let mut k: usize = 0;
    while k < ci.len()
        invariant
            k <= ci.len(),
            view == ci.deep_view(),
            out.deep_view() == ci_naming(view.take(k as int), name@),
        decreases ci.len() - k,
    {
        assert(view.take(k + 1).drop_last() =~= view.take(k as int));
        assert(view[k as int] == ci@[k as int].deep_view());
        if word_at(ci[k].1.as_str(), name).is_some() {
            put(&mut out, ci[k].0.clone());
        }
        k = k + 1;
    }
    assert(view.take(view.len() as int) =~= view);
    out
}

fn case_at(p: &Pass, i: usize, idents: &Vec<(usize, String)>) -> (c: Case)
    requires
        p.ok(),
        i < p.manifests.len(),
    ensures
        c.ok(),
        c@ == case_of(p@, i as int, idents.deep_view()),
{
    assert(p@.manifests[i as int] == p.manifests@[i as int].deep_view());
    let m = &p.manifests[i];
    let decls = declarations(m);
    let ghost dv = decls.deep_view();
    let mut counts: Vec<usize> = Vec::new();
    let mut k: usize = 0;
    while k < decls.len()
        invariant
            k <= decls.len(),
            p.ok(),
            i < p.manifests.len(),
            dv == decls.deep_view(),
            counts.len() == k,
            forall|j: int| 0 <= j < k ==> #[trigger] counts@[j] == consumers_of(p@, i as int, dv[j].name),
        decreases decls.len() - k,
    {
        assert(dv[k as int] == decls@[k as int].deep_view());
        counts.push(consumer_count(p, i, decls[k].name.as_str()));
        k = k + 1;
    }
    assert(dv.len() == decls.len());
    assert(counts@ =~= Seq::new(dv.len(), |k: int| consumers_of(p@, i as int, dv[k].name)));
    Case {
        decl_names: name_list(&decls),
        decls,
        counts,
        names: name_list(&m.features),
        optional: optional_list(&m.deps),
        orphaned: ident_list(idents, i),
    }
}

fn add_features(p: &Pass, i: usize, idents: &Vec<(usize, String)>, ci: &Vec<(String, String)>, out: &mut Vec<Feature>)
    requires
        p.ok(),
        i < p.manifests.len(),
    ensures
        final(out).deep_view() == old(out).deep_view() + features_at(p@, i as int, idents.deep_view(), ci.deep_view()),
{
    let ghost was = out.deep_view();
    let ghost all = features_at(p@, i as int, idents.deep_view(), ci.deep_view());
    assert(p@.manifests[i as int] == p.manifests@[i as int].deep_view());
    assert(p.manifests.len() == p@.manifests.len());
    if p.cfg.skip_lint_silenced_crates && silencing_root(p, i).is_some() {
        assert(was + Seq::<FeatureView>::empty() =~= was);
        return;
    }
    let c = case_at(p, i, idents);
    let alive = c.alive();
    let noop = c.noop();
    let dead = c.dead(&alive, &noop);
    let ghost cv = c@;
    assert(was + all.take(0) =~= was);
    let mut k: usize = 0;
    while k < c.decls.len()
        invariant
            k <= c.decls.len(),
            p.ok(),
            i < p.manifests.len(),
            p@.manifests[i as int] == p.manifests@[i as int].deep_view(),
            p.manifests.len() == p@.manifests.len(),
            c.ok(),
            cv == c@,
            alive.deep_view() == alive_of(cv),
            noop.deep_view() == noop_upto(cv, cv.decls.len() as int),
            dead.deep_view() == dead_of(cv),
            all == Seq::new(cv.decls.len(), |k: int| feature_at(p@, i as int, cv, ci.deep_view(), k)),
            out.deep_view() == was + all.take(k as int),
        decreases c.decls.len() - k,
    {
        let f = &c.decls[k];
        assert(cv.decls[k as int] == f.deep_view());
        let name = f.name.as_str();
        let state = if list_has(&alive, name) {
            FeatureState::Alive
        } else if list_has(&noop, name) {
            FeatureState::Noop
        } else if list_has(&dead, name) {
            FeatureState::Dead
        } else {
            FeatureState::Alive
        };
        let empty = String::new();
        assert(empty@ =~= Seq::<char>::empty());
        let x = Feature {
            manifest: p.manifests[i].path.clone(),
            name: name.to_owned(),
            line: f.line,
            elements: copy_list(&f.elements),
            consumers: c.counts[k],
            ci_files: ci_list(ci, name),
            state,
            gates: gate_list(&c, &p.manifests[i].deps, &f.elements),
            dead_siblings: dead_list(&dead, &f.elements),
            removed_in: None,
            enabled_by: enabled_by(p.manifests, i, name),
            comment: copy_comment(&f.comment),
            line_text: empty,
        };
        assert(x.deep_view() == all[k as int]);
        put(out, x);
        assert(was + all.take(k + 1) =~= (was + all.take(k as int)).push(all[k as int]));
        k = k + 1;
    }
    assert(cv.decls.len() == c.decls.len());
    assert(all.take(all.len() as int) =~= all);
}

/// The verdicts on the features of every manifest.
pub fn check_features(p: &Pass, idents: &Vec<(usize, String)>, ci: &Vec<(String, String)>) -> (out: Vec<Feature>)
    requires
        p.ok(),
    ensures
        out.deep_view() == features_upto(p@, idents.deep_view(), ci.deep_view(), p@.manifests.len() as int),
{
    let mut out: Vec<Feature> = Vec::new();
    assert(out.deep_view() =~= Seq::<FeatureView>::empty());
    let mut i: usize = 0;
    while i < p.manifests.len()
        invariant
            i <= p.manifests.len(),
            p.ok(),
            out.deep_view() == features_upto(p@, idents.deep_view(), ci.deep_view(), i as int),
        decreases p.manifests.len() - i,
    {
        add_features(p, i, idents, ci, &mut out);
        i = i + 1;
    }
    out
}

// ---------- laws ----------

proof fn no_more_is_closed(decls: Seq<FeatureDeclView>, alive: Seq<Chars>, n: int, k: int)
    requires
        0 <= k < n <= decls.len(),
        alive_more(decls, alive, n).len() == 0,
    ensures
        some_in(decls[k].elements, alive) ==> alive.contains(decls[k].name),
    decreases n,
{
    if k < n - 1 {
        no_more_is_closed(decls, alive, n - 1, k);
    }
}

proof fn fix_is_closed(decls: Seq<FeatureDeclView>, alive: Seq<Chars>, k: int)
    requires
        0 <= k < decls.len(),
    ensures
        some_in(decls[k].elements, alive_fix(decls, alive)) ==> alive_fix(decls, alive).contains(decls[k].name),
    decreases others(decls, alive, decls.len() as int),
{
    let more = alive_more(decls, alive, decls.len() as int);
    if more.len() == 0 {
        no_more_is_closed(decls, alive, decls.len() as int, k);
    } else {
        round_shrinks(decls, alive);
        fix_is_closed(decls, alive + more, k);
    }
}

pub(crate) proof fn fix_grows(decls: Seq<FeatureDeclView>, alive: Seq<Chars>, x: Chars)
    requires
        alive.contains(x),
    ensures
        alive_fix(decls, alive).contains(x),
    decreases others(decls, alive, decls.len() as int),
{
    let more = alive_more(decls, alive, decls.len() as int);
    if more.len() > 0 {
        round_shrinks(decls, alive);
        let k = choose|k: int| 0 <= k < alive.len() && alive[k] == x;
        assert((alive + more)[k] == x);
        fix_grows(decls, alive + more, x);
    }
}

pub(crate) proof fn start_holds(c: CaseView, n: int, k: int)
    requires
        0 <= k < n <= c.decls.len(),
        c.counts[k] > 0 || some_keeps(c, c.decls[k].elements),
    ensures
        alive_start(c, n).contains(c.decls[k].name),
    decreases n,
{
    let all = alive_start(c, n);
    if k < n - 1 {
        start_holds(c, n - 1, k);
        let before = alive_start(c, n - 1);
        let j = choose|j: int| 0 <= j < before.len() && before[j] == c.decls[k].name;
        assert(all[j] == c.decls[k].name);
    } else {
        assert(all.last() == c.decls[k].name);
    }
}

/// A feature that enables an alive feature is alive.
pub proof fn enabling_the_alive_is_alive(c: CaseView, k: int)
    requires
        0 <= k < c.decls.len(),
        some_in(c.decls[k].elements, alive_of(c)),
    ensures
        state_of(c, c.decls[k].name) == FeatureState::Alive,
{
    fix_is_closed(c.decls, alive_start(c, c.decls.len() as int), k);
}

/// A dead feature is consumed nowhere and forwards nothing.
pub proof fn a_dead_feature_has_no_consumer(c: CaseView, k: int)
    requires
        0 <= k < c.decls.len(),
        state_of(c, c.decls[k].name) == FeatureState::Dead,
    ensures
        c.counts[k] == 0,
        !some_keeps(c, c.decls[k].elements),
{
    if c.counts[k] > 0 || some_keeps(c, c.decls[k].elements) {
        start_holds(c, c.decls.len() as int, k);
        fix_grows(c.decls, alive_start(c, c.decls.len() as int), c.decls[k].name);
    }
}

proof fn none_dropped(c: CaseView, dead: Seq<Chars>, n: int, k: int)
    requires
        0 <= k < n <= c.decls.len(),
        dropped(c, dead, n).len() == 0,
        dead.contains(c.decls[k].name),
    ensures
        all_lifeless(c, dead, c.decls[k].elements),
    decreases n,
{
    if k < n - 1 {
        none_dropped(c, dead, n - 1, k);
    }
}

proof fn dead_fix_is_lifeless(c: CaseView, dead: Seq<Chars>, k: int)
    requires
        0 <= k < c.decls.len(),
        dead_fix(c, dead).contains(c.decls[k].name),
    ensures
        all_lifeless(c, dead_fix(c, dead), c.decls[k].elements),
    decreases dead.len(),
{
    let out = dropped(c, dead, c.decls.len() as int);
    if out.len() == 0 {
        none_dropped(c, dead, c.decls.len() as int, k);
    } else {
        dead_shrinks(c, dead);
        dead_fix_is_lifeless(c, without(dead, out), k);
    }
}

/// A dead feature gates orphaned dependencies and dead features only.
pub proof fn a_dead_feature_gates_only_the_dead(c: CaseView, k: int)
    requires
        0 <= k < c.decls.len(),
        state_of(c, c.decls[k].name) == FeatureState::Dead,
    ensures
        all_lifeless(c, dead_of(c), c.decls[k].elements),
{
    dead_fix_is_lifeless(
        c,
        in_neither(c.decls, alive_of(c), noop_upto(c, c.decls.len() as int), c.decls.len() as int),
        k,
    );
}

/// `set` names features that are neither alive nor without elements, and each of them gates orphaned
/// dependencies and members of `set` only.
pub open spec fn self_contained(c: CaseView, set: Seq<Chars>) -> bool {
    forall|k: int|
        0 <= k < c.decls.len() && set.contains((#[trigger] c.decls[k]).name) ==> !alive_of(c).contains(c.decls[k].name)
            && !noop_upto(c, c.decls.len() as int).contains(c.decls[k].name) && all_lifeless(c, set, c.decls[k].elements)
}

proof fn lifeless_grows(c: CaseView, set: Seq<Chars>, dead: Seq<Chars>, elements: Seq<Chars>)
    requires
        all_lifeless(c, set, elements),
        forall|x: Chars| set.contains(x) ==> #[trigger] dead.contains(x),
    ensures
        all_lifeless(c, dead, elements),
{
    assert forall|k: int| 0 <= k < elements.len() implies lifeless(c, dead, #[trigger] elements[k]) by {
        assert(lifeless(c, set, elements[k]));
    }
}

proof fn not_dropped(c: CaseView, set: Seq<Chars>, dead: Seq<Chars>, n: int, x: Chars)
    requires
        0 <= n <= c.decls.len(),
        self_contained(c, set),
        forall|x: Chars| set.contains(x) ==> #[trigger] dead.contains(x),
        set.contains(x),
    ensures
        !dropped(c, dead, n).contains(x),
    decreases n,
{
    if n > 0 {
        not_dropped(c, set, dead, n - 1, x);
        let before = dropped(c, dead, n - 1);
        let all = dropped(c, dead, n);
        let d = c.decls[n - 1];
        if set.contains(d.name) {
            lifeless_grows(c, set, dead, d.elements);
            assert(all == before);
        } else if all.contains(x) {
            let j = choose|j: int| 0 <= j < all.len() && all[j] == x;
            if j < before.len() {
                assert(before[j] == x);
            }
        }
    }
}

proof fn stays_without(list: Seq<Chars>, out: Seq<Chars>, x: Chars)
    requires
        list.contains(x),
        !out.contains(x),
    ensures
        without(list, out).contains(x),
    decreases list.len(),
{
    let k = choose|k: int| 0 <= k < list.len() && list[k] == x;
    let all = without(list, out);
    if k == list.len() - 1 {
        assert(all.last() == x);
    } else {
        assert(list.drop_last()[k] == x);
        stays_without(list.drop_last(), out, x);
        let before = without(list.drop_last(), out);
        let j = choose|j: int| 0 <= j < before.len() && before[j] == x;
        assert(all[j] == x);
    }
}

proof fn fix_keeps(c: CaseView, set: Seq<Chars>, dead: Seq<Chars>)
    requires
        self_contained(c, set),
        forall|x: Chars| set.contains(x) ==> #[trigger] dead.contains(x),
    ensures
        forall|x: Chars| set.contains(x) ==> #[trigger] dead_fix(c, dead).contains(x),
    decreases dead.len(),
{
    let out = dropped(c, dead, c.decls.len() as int);
    if out.len() > 0 {
        dead_shrinks(c, dead);
        let next = without(dead, out);
        assert forall|x: Chars| set.contains(x) implies #[trigger] next.contains(x) by {
            not_dropped(c, set, dead, c.decls.len() as int, x);
            assert(dead.contains(x));
            stays_without(dead, out, x);
        }
        fix_keeps(c, set, next);
        assert(dead_fix(c, dead) == dead_fix(c, next));
    } else {
        assert(dead_fix(c, dead) == dead);
    }
}

proof fn candidates_hold(decls: Seq<FeatureDeclView>, a: Seq<Chars>, b: Seq<Chars>, n: int, k: int)
    requires
        0 <= k < n <= decls.len(),
        !a.contains(decls[k].name),
        !b.contains(decls[k].name),
    ensures
        in_neither(decls, a, b, n).contains(decls[k].name),
    decreases n,
{
    let all = in_neither(decls, a, b, n);
    if k < n - 1 {
        candidates_hold(decls, a, b, n - 1, k);
        let before = in_neither(decls, a, b, n - 1);
        let j = choose|j: int| 0 <= j < before.len() && before[j] == decls[k].name;
        assert(all[j] == decls[k].name);
    } else {
        assert(all.last() == decls[k].name);
    }
}

/// The dead features are as many as can be: a set of features that gates orphaned dependencies and
/// its own members only, none of them alive or a no-op, is dead as a whole.
pub proof fn what_only_gates_itself_is_dead(c: CaseView, set: Seq<Chars>, k: int)
    requires
        self_contained(c, set),
        forall|x: Chars| set.contains(x) ==> #[trigger] names_of(c.decls).contains(x),
        0 <= k < c.decls.len(),
        set.contains(c.decls[k].name),
    ensures
        state_of(c, c.decls[k].name) == FeatureState::Dead,
{
    let n = c.decls.len() as int;
    let first = in_neither(c.decls, alive_of(c), noop_upto(c, n), n);
    assert forall|x: Chars| set.contains(x) implies #[trigger] first.contains(x) by {
        assert(names_of(c.decls).contains(x));
        let j = choose|j: int| 0 <= j < names_of(c.decls).len() && names_of(c.decls)[j] == x;
        assert(c.decls[j].name == x);
        assert(set.contains(c.decls[j].name));
        candidates_hold(c.decls, alive_of(c), noop_upto(c, n), n, j);
    }
    fix_keeps(c, set, first);
    assert(dead_fix(c, first).contains(c.decls[k].name));
}

} // verus!
