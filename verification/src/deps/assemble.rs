//! The import graph of a file set.

use vstd::prelude::*;

use crate::config::Deps;
use crate::deps::cuts::{cuts_for, cuts_of, place};
use crate::deps::extract::{extract_tree, imports_of, RawImport, RawImportView};
use crate::deps::graph::{
    carried_with, components_of, cycles, cycles_in, edge_of, nothing_carried, Carried, CarriedView, Edge, EdgeView,
};
use crate::deps::resolve::{resolve, targets_of};
use crate::deps::words::{common_dir, common_dir_of, common_of, dirs_of, Cycle, CycleView};
use crate::discover::{dir, dir_of, FileKind, SourceFile};
use crate::lang::Language;
use crate::names::{distinct, keys_of, put_entry, with_entry, Names};
use crate::order::{ordered, sort_texts, sorted_texts, stable_order, Key, KeyView};
use crate::text::{index_from, put, same, Chars};
use crate::tree::{ints, opt_nodes, reads_as, Nodes, SyntaxTree};

verus! {

/// What the graph says of one file.
#[derive(Clone, Copy)]
pub struct FileDeps {
    /// Distinct non-test files importing this one.
    pub fan_in: usize,
    /// Distinct in-repo files this one imports.
    pub fan_out: usize,
    /// Distinct test files importing this one (test proximity signal).
    pub test_refs: usize,
    /// Bare specifiers and third-party modules that did not resolve in-repo.
    pub external: usize,
    pub in_cycle: bool,
}

impl DeepView for FileDeps {
    type V = FileDeps;

    open spec fn deep_view(&self) -> FileDeps {
        *self
    }
}

/// Who depends on whom, and where that is tangled.
pub struct DepGraph {
    /// What is said of each file, by path, in the order of the files.
    pub files: Vec<(String, FileDeps)>,
    pub file_cycles: Vec<Cycle>,
    pub dir_cycles: Vec<Cycle>,
    /// Every edge, one for two files, in the order of the files and of their targets.
    pub edges: Vec<Edge>,
}

/// A [`DepGraph`] by its contents.
pub struct GraphView {
    pub files: Seq<(Chars, FileDeps)>,
    pub file_cycles: Seq<CycleView>,
    pub dir_cycles: Seq<CycleView>,
    pub edges: Seq<EdgeView>,
}

impl View for DepGraph {
    type V = GraphView;

    open spec fn view(&self) -> GraphView {
        GraphView {
            files: self.files.deep_view(),
            file_cycles: self.file_cycles.deep_view(),
            dir_cycles: self.dir_cycles.deep_view(),
            edges: self.edges.deep_view(),
        }
    }
}

/// The edge from the `k`th on between two files.
pub open spec fn edge_between(edges: Seq<EdgeView>, from: Chars, to: Chars, k: int) -> Option<EdgeView>
    decreases edges.len() - k,
{
    if k < 0 || k >= edges.len() {
        None
    } else if edges[k].from == from && edges[k].to == to {
        Some(edges[k])
    } else {
        edge_between(edges, from, to, k + 1)
    }
}

/// One file imports the other.
pub open spec fn imports(edges: Seq<EdgeView>, from: Chars, to: Chars) -> bool {
    edge_between(edges, from, to, 0) is Some
}

/// What both files import, from the first `n` edges.
pub open spec fn both_import(edges: Seq<EdgeView>, a: Chars, b: Chars, n: int) -> Seq<Chars>
    decreases n,
{
    if n <= 0 {
        Seq::empty()
    } else {
        let rest = both_import(edges, a, b, n - 1);
        if edges[n - 1].from == a && imports(edges, b, edges[n - 1].to) {
            rest.push(edges[n - 1].to)
        } else {
            rest
        }
    }
}

impl DepGraph {
    /// The edge `from -> to`, if any.
    pub fn edge(&self, from: &str, to: &str) -> (r: Option<&Edge>)
        ensures
            r.deep_view() == edge_between(self@.edges, from@, to@, 0),
    {
        let ghost view = self.edges.deep_view();
        let mut k: usize = 0;
        while k < self.edges.len()
            invariant
                k <= self.edges.len(),
                view == self.edges.deep_view(),
                edge_between(view, from@, to@, 0) == edge_between(view, from@, to@, k as int),
            decreases self.edges.len() - k,
        {
            assert(view[k as int] == self.edges@[k as int].deep_view());
            if same(self.edges[k].from.as_str(), from) && same(self.edges[k].to.as_str(), to) {
                return Some(&self.edges[k]);
            }
            k = k + 1;
        }
        None
    }

    /// True when either file imports the other, directly.
    pub fn connected(&self, a: &str, b: &str) -> (r: bool)
        ensures
            r == (imports(self@.edges, a@, b@) || imports(self@.edges, b@, a@)),
    {
        self.edge(a, b).is_some() || self.edge(b, a).is_some()
    }

    /// In-repo files that both `a` and `b` import directly, sorted.
    pub fn shared_imports(&self, a: &str, b: &str) -> (out: Vec<String>)
        ensures
            out.deep_view() == sorted_texts(both_import(self@.edges, a@, b@, self@.edges.len() as int)),
    {
        let ghost view = self.edges.deep_view();
        let mut out: Vec<String> = Vec::new();
        let mut k: usize = 0;
        assert(out.deep_view() =~= Seq::<Chars>::empty());
        while k < self.edges.len()
            invariant
                k <= self.edges.len(),
                view == self.edges.deep_view(),
                out.deep_view() == both_import(view, a@, b@, k as int),
            decreases self.edges.len() - k,
        {
            assert(view[k as int] == self.edges@[k as int].deep_view());
            if same(self.edges[k].from.as_str(), a) {
                let t = self.edges[k].to.as_str();
                if self.edge(b, t).is_some() {
                    put(&mut out, t.to_owned());
                }
            }
            k = k + 1;
        }
        sort_texts(&out)
    }
}

// ---------- the files ----------

/// A file of the graph: third-party code checked into the tree is not part of it.
pub open spec fn in_repo(f: SourceFile) -> bool {
    f.kind != FileKind::Vendored
}

/// The paths of the first `n` files of the graph, each once.
pub open spec fn known_upto(all: Seq<SourceFile>, n: int) -> Seq<Chars>
    decreases n,
{
    if n <= 0 {
        Seq::empty()
    } else {
        let rest = known_upto(all, n - 1);
        if in_repo(all[n - 1]) && !rest.contains(all[n - 1].path@) {
            rest.push(all[n - 1].path@)
        } else {
            rest
        }
    }
}

/// The paths of the files of the graph.
pub open spec fn known_of(all: Seq<SourceFile>) -> Seq<Chars> {
    known_upto(all, all.len() as int)
}

/// The last of the first `n` files that is one of the graph with a path.
pub open spec fn file_upto(all: Seq<SourceFile>, path: Chars, n: int) -> int
    decreases n,
{
    if n <= 0 {
        0
    } else if in_repo(all[n - 1]) && all[n - 1].path@ == path {
        n - 1
    } else {
        file_upto(all, path, n - 1)
    }
}

/// The file of the graph with a path; of several the last.
pub open spec fn file_at(all: Seq<SourceFile>, path: Chars) -> int {
    file_upto(all, path, all.len() as int)
}

proof fn known_has_file(all: Seq<SourceFile>, n: int, path: Chars)
    requires
        n <= all.len(),
        known_upto(all, n).contains(path),
    ensures
        exists|k: int| 0 <= k < n && in_repo(#[trigger] all[k]) && all[k].path@ == path,
    decreases n,
{
    if n > 0 {
        let rest = known_upto(all, n - 1);
        if rest.contains(path) {
            known_has_file(all, n - 1, path);
        } else {
            let i = choose|i: int| 0 <= i < known_upto(all, n).len() && known_upto(all, n)[i] == path;
            assert(i == rest.len());
            assert(in_repo(all[n - 1]) && all[n - 1].path@ == path);
        }
    }
}

proof fn file_at_is_file(all: Seq<SourceFile>, path: Chars, n: int)
    requires
        0 <= n <= all.len(),
        exists|j: int| 0 <= j < n && in_repo(#[trigger] all[j]) && all[j].path@ == path,
    ensures
        0 <= file_upto(all, path, n) < n,
        in_repo(all[file_upto(all, path, n)]),
        all[file_upto(all, path, n)].path@ == path,
    decreases n,
{
    if !(in_repo(all[n - 1]) && all[n - 1].path@ == path) {
        file_at_is_file(all, path, n - 1);
    }
}

/// The files of the graph by path.
struct Index {
    names: Names,
    /// Where each of them stands.
    homes: Vec<usize>,
}

impl Index {
    spec fn ok(&self, all: Seq<SourceFile>) -> bool {
        &&& self.names.ok()
        &&& self.names@ == known_of(all)
        &&& self.homes.len() == self.names@.len()
        &&& forall|j: int|
            0 <= j < self.homes.len() ==> #[trigger] self.homes@[j] == file_at(all, self.names@[j]) && self.homes@[j]
                < all.len()
    }

    fn find(&self, path: &str, Ghost(all): Ghost<Seq<SourceFile>>) -> (i: usize)
        requires
            self.ok(all),
            known_of(all).contains(path@),
        ensures
            i == file_at(all, path@),
            i < all.len(),
    {
        match self.names.find(path) {
            Some(j) => {
                assert(self.homes@[j as int] == file_at(all, self.names@[j as int]));
                self.homes[j]
            },
            None => 0,
        }
    }
}

fn index_files(all: &Vec<SourceFile>) -> (r: Index)
    ensures
        r.ok(all@),
{
    let mut names = Names::new();
    let mut homes: Vec<usize> = Vec::new();
    let mut k: usize = 0;
    while k < all.len()
        invariant
            k <= all.len(),
            names.ok(),
            names@ == known_upto(all@, k as int),
            homes.len() == names@.len(),
            forall|j: int| 0 <= j < homes.len() ==> #[trigger] homes@[j] == file_upto(all@, names@[j], k as int),
            forall|j: int| 0 <= j < homes.len() ==> #[trigger] homes@[j] < k,
        decreases all.len() - k,
    {
        let ghost was = names@;
        if all[k].kind != FileKind::Vendored {
            let path = all[k].path.as_str();
            let i: usize = names.add(path);
            proof {
                names.are_distinct();
                assert forall|j: int| 0 <= j < was.len() implies #[trigger] names@[j] == was[j] by {}
            }
            if i < homes.len() {
                homes.set(i, k);
            } else {
                homes.push(k);
            }
        }
        k = k + 1;
    }
    Index { names, homes }
}

proof fn file_is_known(all: Seq<SourceFile>, n: int, i: int)
    requires
        0 <= i < n <= all.len(),
        in_repo(all[i]),
    ensures
        known_upto(all, n).contains(all[i].path@),
    decreases n,
{
    let rest = known_upto(all, n - 1);
    let now = known_upto(all, n);
    if i < n - 1 {
        file_is_known(all, n - 1, i);
        let k = choose|k: int| 0 <= k < rest.len() && rest[k] == all[i].path@;
        assert(now[k] == rest[k]);
    } else if rest.contains(all[i].path@) {
    } else {
        assert(now[rest.len() as int] == all[i].path@);
    }
}

// ---------- the targets of a file ----------

/// Targets and what is carried to them, in the order they are met.
pub type Targets = Seq<(Chars, CarriedView)>;

/// The place of a target from `k` on.
pub open spec fn target_place(list: Targets, t: Chars, k: int) -> Option<int>
    decreases list.len() - k,
{
    if k < 0 || k >= list.len() {
        None
    } else if list[k].0 == t {
        Some(k)
    } else {
        target_place(list, t, k + 1)
    }
}

/// Targets and one more import of one of them.
pub open spec fn with_target(list: Targets, t: Chars, r: RawImportView) -> Targets {
    match target_place(list, t, 0) {
        Some(i) => list.update(i, (t, carried_with(list[i].1, r))),
        None => list.push((t, carried_with(nothing_carried(), r))),
    }
}

/// Targets and one more import of those from `k` on but the file itself.
pub open spec fn with_targets(list: Targets, ts: Seq<Chars>, path: Chars, r: RawImportView, k: int) -> Targets
    decreases ts.len() - k,
{
    if k < 0 || k >= ts.len() {
        list
    } else {
        with_targets(
            if ts[k] == path {
                list
            } else {
                with_target(list, ts[k], r)
            },
            ts,
            path,
            r,
            k + 1,
        )
    }
}

/// The targets of a file's imports, and how many imports name nothing of the repository.
pub open spec fn file_targets(path: Chars, lang: Language, raws: Seq<RawImportView>, known: Seq<Chars>, cfg: Deps) -> (
    Targets,
    nat,
)
    decreases raws.len(),
{
    if raws.len() == 0 {
        (Seq::empty(), 0)
    } else {
        let (list, external) = file_targets(path, lang, raws.drop_last(), known, cfg);
        match targets_of(path, lang, raws.last(), known, cfg) {
            Some(ts) => (with_targets(list, ts, path, raws.last(), 0), external),
            None => (list, external + 1),
        }
    }
}

/// The keys of targets.
pub open spec fn target_keys(list: Targets) -> Seq<KeyView> {
    Seq::new(list.len(), |i: int| crate::order::text_key(list[i].0))
}

/// The edges of a file's targets, in the order of their paths.
pub open spec fn target_edges(path: Chars, list: Targets, glob_cost: u32) -> Seq<EdgeView> {
    let order = ordered(target_keys(list), list.len() as int);
    Seq::new(list.len(), |i: int| edge_of(list[order[i]].1, path, list[order[i]].0, glob_cost))
}

/// What a file of the graph states: nothing where it is generated, which may be imported but is not
/// walked, so that it never forms a cycle.
pub open spec fn stated(f: SourceFile, raws: Seq<RawImportView>) -> Seq<RawImportView> {
    if f.kind == FileKind::Generated {
        Seq::empty()
    } else {
        raws
    }
}

/// The targets of the file at `i`.
pub open spec fn targets_at(all: Seq<SourceFile>, raws: Seq<Seq<RawImportView>>, i: int, cfg: Deps) -> (Targets, nat) {
    file_targets(all[i].path@, all[i].lang, stated(all[i], raws[i]), known_of(all), cfg)
}

/// The edges of the first `n` files.
pub open spec fn edges_upto(all: Seq<SourceFile>, raws: Seq<Seq<RawImportView>>, n: int, cfg: Deps) -> Seq<EdgeView>
    decreases n,
{
    if n <= 0 {
        Seq::empty()
    } else {
        edges_upto(all, raws, n - 1, cfg) + (if in_repo(all[n - 1]) {
            target_edges(all[n - 1].path@, targets_at(all, raws, n - 1, cfg).0, cfg.glob_import_symbol_cost)
        } else {
            Seq::empty()
        })
    }
}

/// The edges of the graph.
pub open spec fn edges_of(all: Seq<SourceFile>, raws: Seq<Seq<RawImportView>>, cfg: Deps) -> Seq<EdgeView> {
    edges_upto(all, raws, all.len() as int, cfg)
}

/// Every target is a file of the graph.
spec fn targets_known(list: Targets, known: Seq<Chars>) -> bool {
    forall|k: int| 0 <= k < list.len() ==> known.contains((#[trigger] list[k]).0)
}

fn find_target(list: &Vec<(String, Carried)>, t: &str) -> (r: Option<usize>)
    ensures
        crate::text::as_int(r) == target_place(list.deep_view(), t@, 0),
        r matches Some(i) ==> i < list.len() && list@[i as int].0@ == t@,
{
    let ghost view = list.deep_view();
    let mut k: usize = 0;
    while k < list.len()
        invariant
            k <= list.len(),
            view == list.deep_view(),
            target_place(view, t@, 0) == target_place(view, t@, k as int),
        decreases list.len() - k,
    {
        assert(view[k as int] == list@[k as int].deep_view());
        if same(list[k].0.as_str(), t) {
            return Some(k);
        }
        k = k + 1;
    }
    None
}

fn add_target(list: &mut Vec<(String, Carried)>, t: &str, r: &RawImport, Ghost(known): Ghost<Seq<Chars>>)
    requires
        targets_known(old(list).deep_view(), known),
        known.contains(t@),
    ensures
        final(list).deep_view() == with_target(old(list).deep_view(), t@, r.deep_view()),
        targets_known(final(list).deep_view(), known),
{
    let ghost was = list.deep_view();
    match find_target(list, t) {
        Some(i) => {
            let ghost before = list@;
            assert(was[i as int] == before[i as int].deep_view());
            list[i].1.add(r);
            assert(list.deep_view() =~= was.update(i as int, (t@, carried_with(was[i as int].1, r.deep_view()))));
            assert forall|k: int| 0 <= k < list.deep_view().len() implies known.contains((#[trigger] list.deep_view()[k]).0) by {
                assert(known.contains(was[k].0));
            }
        },
        None => {
            let mut c = Carried::new();
            c.add(r);
            put(list, (t.to_owned(), c));
            assert forall|k: int| 0 <= k < list.deep_view().len() implies known.contains((#[trigger] list.deep_view()[k]).0) by {
                if k < was.len() {
                    assert(known.contains(was[k].0));
                }
            }
        },
    }
}

fn add_targets(
    list: &mut Vec<(String, Carried)>,
    ts: &Vec<String>,
    path: &str,
    r: &RawImport,
    Ghost(known): Ghost<Seq<Chars>>,
)
    requires
        targets_known(old(list).deep_view(), known),
        forall|k: int| 0 <= k < ts.deep_view().len() ==> known.contains(#[trigger] ts.deep_view()[k]),
    ensures
        final(list).deep_view() == with_targets(old(list).deep_view(), ts.deep_view(), path@, r.deep_view(), 0),
        targets_known(final(list).deep_view(), known),
{
    let ghost start = list.deep_view();
    let ghost view = ts.deep_view();
    let mut k: usize = 0;
    while k < ts.len()
        invariant
            k <= ts.len(),
            view == ts.deep_view(),
            targets_known(list.deep_view(), known),
            forall|k: int| 0 <= k < view.len() ==> known.contains(#[trigger] view[k]),
            with_targets(start, view, path@, r.deep_view(), 0) == with_targets(
                list.deep_view(),
                view,
                path@,
                r.deep_view(),
                k as int,
            ),
        decreases ts.len() - k,
    {
        assert(view[k as int] == ts@[k as int]@);
        if !same(ts[k].as_str(), path) {
            add_target(list, ts[k].as_str(), r, Ghost(known));
        }
        k = k + 1;
    }
}

/// What one file imports: its targets, and how many imports name nothing of the repository.
fn find_targets(path: &str, lang: Language, raws: &Vec<RawImport>, index: &Index, cfg: &Deps, Ghost(all): Ghost<Seq<SourceFile>>) -> (r: (
    Vec<(String, Carried)>,
    usize,
))
    requires
        index.ok(all),
    ensures
        (r.0.deep_view(), r.1 as nat) == file_targets(path@, lang, raws.deep_view(), known_of(all), *cfg),
        targets_known(r.0.deep_view(), known_of(all)),
{
    let ghost view = raws.deep_view();
    let ghost known = known_of(all);
    let mut list: Vec<(String, Carried)> = Vec::new();
    let mut external: usize = 0;
    let mut k: usize = 0;
    assert(view.take(0) =~= Seq::<RawImportView>::empty());
    assert(list.deep_view() =~= Seq::<(Chars, CarriedView)>::empty());
    while k < raws.len()
        invariant
            k <= raws.len(),
            external <= k,
            index.ok(all),
            view == raws.deep_view(),
            known == known_of(all),
            (list.deep_view(), external as nat) == file_targets(path@, lang, view.take(k as int), known, *cfg),
            targets_known(list.deep_view(), known),
        decreases raws.len() - k,
    {
        assert(view.take(k + 1).drop_last() =~= view.take(k as int));
        let r = &raws[k];
        assert(view[k as int] == r.deep_view());
        proof {
            crate::deps::resolve::targets_are_known(path@, lang, r.deep_view(), known, *cfg);
        }
        match resolve(path, lang, r, &index.names, cfg) {
            Some(ts) => {
                add_targets(&mut list, &ts, path, r, Ghost(known));
            },
            None => {
                external = external + 1;
            },
        }
        k = k + 1;
    }
    assert(view.take(view.len() as int) =~= view);
    (list, external)
}

fn add_edges(path: &str, list: &Vec<(String, Carried)>, glob_cost: u32, out: &mut Vec<Edge>)
    ensures
        final(out).deep_view() == old(out).deep_view() + target_edges(path@, list.deep_view(), glob_cost),
{
    let ghost view = list.deep_view();
    let ghost start = out.deep_view();
    let ghost all = target_edges(path@, view, glob_cost);
    let mut keys: Vec<Key> = Vec::new();
    let mut k: usize = 0;
    while k < list.len()
        invariant
            k <= list.len(),
            keys.len() == k,
            view == list.deep_view(),
            forall|j: int| 0 <= j < k ==> (#[trigger] keys@[j]).deep_view() == target_keys(view)[j],
        decreases list.len() - k,
    {
        assert(view[k as int] == list@[k as int].deep_view());
        keys.push(Key { a: 0, b: 0, s: list[k].0.as_str().to_owned(), c: 0 });
        k = k + 1;
    }
    assert(keys.deep_view() =~= target_keys(view));
    let order = stable_order(&keys);
    k = 0;
    assert(start + all.take(0) =~= start);
    while k < order.len()
        invariant
            k <= order.len() == list.len(),
            view == list.deep_view(),
            all == target_edges(path@, view, glob_cost),
            ints(order@) == ordered(target_keys(view), view.len() as int),
            forall|j: int| 0 <= j < order.len() ==> #[trigger] order@[j] < list.len(),
            out.deep_view() == start + all.take(k as int),
        decreases order.len() - k,
    {
        let o: usize = order[k];
        assert(ints(order@)[k as int] == o as int);
        assert(view[o as int] == list@[o as int].deep_view());
        put(out, list[o].1.into_edge(path, list[o].0.as_str(), glob_cost));
        assert((start + all.take(k as int)).push(all[k as int]) =~= start + all.take(k + 1));
        k = k + 1;
    }
    assert(all.take(view.len() as int) =~= all);
}

// ---------- one edge for two files ----------

/// Two edges lead from one file to one other.
pub open spec fn same_ends(d: EdgeView, e: EdgeView) -> bool {
    d.from == e.from && d.to == e.to
}

/// A later edge leads from the same file to the same file.
pub open spec fn outdone(edges: Seq<EdgeView>, k: int) -> bool {
    exists|j: int| k < j < edges.len() && same_ends(#[trigger] edges[j], edges[k])
}

/// The edges from `k` on that no later one replaces.
pub open spec fn last_from(edges: Seq<EdgeView>, k: int) -> Seq<EdgeView>
    decreases edges.len() - k,
{
    if k < 0 || k >= edges.len() {
        Seq::empty()
    } else if outdone(edges, k) {
        last_from(edges, k + 1)
    } else {
        seq![edges[k]] + last_from(edges, k + 1)
    }
}

/// No two edges lead from one file to one other.
pub open spec fn one_each(edges: Seq<EdgeView>) -> bool {
    forall|a: int, b: int| 0 <= a < b < edges.len() ==> !same_ends(#[trigger] edges[a], #[trigger] edges[b])
}

proof fn kept_is_stated(edges: Seq<EdgeView>, k: int, x: int) -> (j: int)
    requires
        0 <= k,
        0 <= x < last_from(edges, k).len(),
    ensures
        k <= j < edges.len(),
        edges[j] == last_from(edges, k)[x],
    decreases edges.len() - k,
{
    if outdone(edges, k) {
        kept_is_stated(edges, k + 1, x)
    } else if x == 0 {
        k
    } else {
        assert(last_from(edges, k)[x] == last_from(edges, k + 1)[x - 1]);
        kept_is_stated(edges, k + 1, x - 1)
    }
}

proof fn stated_is_kept(edges: Seq<EdgeView>, k: int, j: int) -> (x: int)
    requires
        0 <= k <= j < edges.len(),
    ensures
        0 <= x < last_from(edges, k).len(),
        same_ends(last_from(edges, k)[x], edges[j]),
    decreases edges.len() - k,
{
    if outdone(edges, k) {
        if j == k {
            let l = choose|l: int| k < l < edges.len() && same_ends(#[trigger] edges[l], edges[k]);
            stated_is_kept(edges, k + 1, l)
        } else {
            stated_is_kept(edges, k + 1, j)
        }
    } else if j == k {
        0
    } else {
        let x = stated_is_kept(edges, k + 1, j);
        assert(last_from(edges, k)[x + 1] == last_from(edges, k + 1)[x]);
        x + 1
    }
}

proof fn kept_are_one_each(edges: Seq<EdgeView>, k: int)
    requires
        0 <= k,
    ensures
        one_each(last_from(edges, k)),
    decreases edges.len() - k,
{
    if k < edges.len() {
        kept_are_one_each(edges, k + 1);
        let rest = last_from(edges, k + 1);
        let all = last_from(edges, k);
        if !outdone(edges, k) {
            assert forall|a: int, b: int| 0 <= a < b < all.len() implies !same_ends(#[trigger] all[a], #[trigger] all[b]) by {
                assert(all[b] == rest[b - 1]);
                if a == 0 {
                    let j = kept_is_stated(edges, k + 1, b - 1);
                    assert(!same_ends(edges[j], edges[k]));
                } else {
                    assert(all[a] == rest[a - 1]);
                }
            }
        }
    }
}

/// Of edges there stays one for every two files that there is one for.
pub proof fn last_edges_are_one_each(edges: Seq<EdgeView>)
    ensures
        one_each(last_from(edges, 0)),
        forall|x: int| 0 <= x < last_from(edges, 0).len() ==> edges.contains(#[trigger] last_from(edges, 0)[x]),
        forall|j: int|
            0 <= j < edges.len() ==> exists|x: int|
                0 <= x < last_from(edges, 0).len() && same_ends(#[trigger] last_from(edges, 0)[x], #[trigger] edges[j]),
{
    let all = last_from(edges, 0);
    kept_are_one_each(edges, 0);
    assert forall|x: int| 0 <= x < all.len() implies edges.contains(#[trigger] all[x]) by {
        let j = kept_is_stated(edges, 0, x);
        assert(edges[j] == all[x]);
    }
    assert forall|j: int| 0 <= j < edges.len() implies exists|x: int|
        0 <= x < all.len() && same_ends(#[trigger] all[x], #[trigger] edges[j]) by {
        let x = stated_is_kept(edges, 0, j);
        assert(same_ends(all[x], edges[j]));
    }
}

fn group_edges(n: usize, pairs: &Vec<(usize, usize)>) -> (out: Vec<Vec<usize>>)
    requires
        forall|k: int| 0 <= k < pairs@.len() ==> (#[trigger] pairs@[k]).0 < n,
    ensures
        out.len() == n,
        forall|a: int, x: int| 0 <= a < n && 0 <= x < out@[a].len() ==> #[trigger] out@[a]@[x] < pairs.len(),
        forall|k: int| 0 <= k < pairs@.len() ==> out@[(#[trigger] pairs@[k]).0 as int]@.contains(k as usize),
{
    let mut out: Vec<Vec<usize>> = Vec::new();
    let mut i: usize = 0;
    while i < n
        invariant
            i <= n,
            out.len() == i,
            forall|a: int| 0 <= a < i ==> (#[trigger] out@[a]).len() == 0,
        decreases n - i,
    {
        out.push(Vec::new());
        i = i + 1;
    }
    let mut k: usize = 0;
    while k < pairs.len()
        invariant
            k <= pairs.len(),
            out.len() == n,
            forall|k: int| 0 <= k < pairs@.len() ==> (#[trigger] pairs@[k]).0 < n,
            forall|a: int, x: int| 0 <= a < n && 0 <= x < out@[a].len() ==> #[trigger] out@[a]@[x] < pairs.len(),
            forall|j: int| 0 <= j < k ==> out@[(#[trigger] pairs@[j]).0 as int]@.contains(j as usize),
        decreases pairs.len() - k,
    {
        let ghost was = out@;
        let a: usize = pairs[k].0;
        assert(pairs@[k as int].0 < n);
        out[a].push(k);
        proof {
            assert(out@[a as int]@ == was[a as int]@.push(k));
            assert forall|b: int, x: int| 0 <= b < n && 0 <= x < out@[b].len() implies #[trigger] out@[b]@[x] < pairs.len() by {
                if b != a || x < was[b].len() {
                    assert(out@[b]@[x] == was[b]@[x]);
                }
            }
            assert forall|j: int| 0 <= j < k + 1 implies out@[(#[trigger] pairs@[j]).0 as int]@.contains(j as usize) by {
                let b = pairs@[j].0 as int;
                if j < k {
                    assert(was[b]@.contains(j as usize));
                    let x = choose|x: int| 0 <= x < was[b]@.len() && was[b]@[x] == j as usize;
                    assert(out@[b]@[x] == j as usize);
                } else {
                    assert(out@[b]@[was[b].len() as int] == k);
                }
            }
        }
        k = k + 1;
    }
    out
}

fn keep_last(edges: Vec<Edge>, all: &Vec<SourceFile>, pairs: &Vec<(usize, usize)>) -> (out: Vec<Edge>)
    requires
        pairs@ == pairs_of(all@, edges.deep_view()),
        edges_known(edges.deep_view(), known_of(all@)),
        forall|k: int| 0 <= k < pairs@.len() ==> (#[trigger] pairs@[k]).0 < all.len(),
    ensures
        out.deep_view() == last_from(edges.deep_view(), 0),
{
    let ghost sv = edges.deep_view();
    let groups = group_edges(all.len(), pairs);
    let mut out = edges;
    let mut k: usize = out.len();
    assert(sv.len() == out.len());
    assert(sv.take(sv.len() as int) + last_from(sv, sv.len() as int) =~= sv);
    while k > 0
        invariant
            k <= sv.len() == pairs.len(),
            pairs@ == pairs_of(all@, sv),
            edges_known(sv, known_of(all@)),
            groups.len() == all.len(),
            forall|k: int| 0 <= k < pairs@.len() ==> (#[trigger] pairs@[k]).0 < all.len(),
            forall|a: int, x: int| 0 <= a < all.len() && 0 <= x < groups@[a].len() ==> #[trigger] groups@[a]@[x] < pairs.len(),
            forall|k: int| 0 <= k < pairs@.len() ==> groups@[(#[trigger] pairs@[k]).0 as int]@.contains(k as usize),
            out.deep_view() == sv.take(k as int) + last_from(sv, k as int),
        decreases k,
    {
        k = k - 1;
        let (a, b) = pairs[k];
        assert(pairs@[k as int].0 < all.len());
        let group = &groups[a];
        let mut found: bool = false;
        let mut x: usize = 0;
        while x < group.len()
            invariant
                x <= group.len(),
                k < pairs.len(),
                (a, b) == pairs@[k as int],
                forall|y: int| 0 <= y < group.len() ==> #[trigger] group@[y] < pairs.len(),
                found == exists|y: int| 0 <= y < x && (#[trigger] group@[y]) > k && pairs@[group@[y] as int] == pairs@[k as int],
            decreases group.len() - x,
        {
            let j: usize = group[x];
            assert(group@[x as int] < pairs.len());
            if j > k && pairs[j].0 == a && pairs[j].1 == b {
                found = true;
            }
            x = x + 1;
        }
        proof {
            let now = out.deep_view();
            assert(found == outdone(sv, k as int)) by {
                if found {
                    let y = choose|y: int| 0 <= y < group.len() && (#[trigger] group@[y]) > k && pairs@[group@[y] as int] == pairs@[k as int];
                    let j = group@[y] as int;
                    pair_tells_ends(all@, sv, j, k as int);
                    assert(same_ends(sv[j], sv[k as int]));
                }
                if outdone(sv, k as int) {
                    let j = choose|j: int| k < j < sv.len() && same_ends(#[trigger] sv[j], sv[k as int]);
                    assert(pairs@[j] == pair_of(all@, sv[j]) && pairs@[k as int] == pair_of(all@, sv[k as int]));
                    assert(group@.contains(j as usize));
                    let y = choose|y: int| 0 <= y < group@.len() && group@[y] == j as usize;
                    assert(group@[y] > k && pairs@[group@[y] as int] == pairs@[k as int]);
                }
            }
            assert(now[k as int] == sv[k as int]);
            assert(out.len() == now.len());
        }
        if found {
            let ghost now = out.deep_view();
            out.remove(k);
            assert(out.deep_view() =~= now.remove(k as int));
            assert(now.remove(k as int) =~= sv.take(k as int) + last_from(sv, k as int));
        } else {
            assert(sv.take(k + 1) + last_from(sv, k + 1) =~= sv.take(k as int) + (seq![sv[k as int]] + last_from(sv, k + 1)));
        }
    }
    assert(sv.take(0) + last_from(sv, 0) =~= last_from(sv, 0));
    out
}

proof fn pair_tells_ends(all: Seq<SourceFile>, edges: Seq<EdgeView>, j: int, k: int)
    requires
        edges_known(edges, known_of(all)),
        0 <= j < edges.len(),
        0 <= k < edges.len(),
        all.len() <= usize::MAX,
        pair_of(all, edges[j]) == pair_of(all, edges[k]),
    ensures
        same_ends(edges[j], edges[k]),
{
    let n = all.len() as int;
    known_has_file(all, n, edges[j].from);
    known_has_file(all, n, edges[j].to);
    known_has_file(all, n, edges[k].from);
    known_has_file(all, n, edges[k].to);
    file_at_is_file(all, edges[j].from, n);
    file_at_is_file(all, edges[j].to, n);
    file_at_is_file(all, edges[k].from, n);
    file_at_is_file(all, edges[k].to, n);
}

// ---------- counts ----------

/// Where an edge leads from and to, by file.
pub open spec fn pair_of(all: Seq<SourceFile>, e: EdgeView) -> (usize, usize) {
    (file_at(all, e.from) as usize, file_at(all, e.to) as usize)
}

/// The edges by file.
pub open spec fn pairs_of(all: Seq<SourceFile>, edges: Seq<EdgeView>) -> Seq<(usize, usize)> {
    Seq::new(edges.len(), |k: int| pair_of(all, edges[k]))
}

/// How many of the first `n` edges lead to file `i` from a test file, or from one that is none.
pub open spec fn refs_to(all: Seq<SourceFile>, pairs: Seq<(usize, usize)>, i: int, tests: bool, n: int) -> nat
    decreases n,
{
    if n <= 0 {
        0
    } else {
        refs_to(all, pairs, i, tests, n - 1) + (if pairs[n - 1].1 == i && (all[pairs[n - 1].0 as int].kind == FileKind::Test)
            == tests {
            1nat
        } else {
            0
        })
    }
}

/// The file stands in one of the cycles.
pub open spec fn in_some(list: Seq<Seq<usize>>, i: usize) -> bool {
    exists|c: int| 0 <= c < list.len() && (#[trigger] list[c]).contains(i)
}

/// What the graph says of the file at `i`.
pub open spec fn deps_at(
    all: Seq<SourceFile>,
    raws: Seq<Seq<RawImportView>>,
    pairs: Seq<(usize, usize)>,
    list: Seq<Seq<usize>>,
    i: int,
    cfg: Deps,
) -> FileDeps {
    let (targets, external) = targets_at(all, raws, i, cfg);
    FileDeps {
        fan_in: refs_to(all, pairs, i, false, pairs.len() as int) as usize,
        fan_out: targets.len() as usize,
        test_refs: refs_to(all, pairs, i, true, pairs.len() as int) as usize,
        external: external as usize,
        in_cycle: in_some(list, i as usize),
    }
}

/// What the graph says of the first `n` files; of files with one path the last one stays.
pub open spec fn deps_upto(
    all: Seq<SourceFile>,
    raws: Seq<Seq<RawImportView>>,
    pairs: Seq<(usize, usize)>,
    list: Seq<Seq<usize>>,
    n: int,
    cfg: Deps,
) -> Seq<(Chars, FileDeps)>
    decreases n,
{
    if n <= 0 {
        Seq::empty()
    } else {
        let rest = deps_upto(all, raws, pairs, list, n - 1, cfg);
        if in_repo(all[n - 1]) {
            with_entry(rest, all[n - 1].path@, deps_at(all, raws, pairs, list, n - 1, cfg))
        } else {
            rest
        }
    }
}

/// Every edge joins files of the graph.
spec fn edges_known(edges: Seq<EdgeView>, known: Seq<Chars>) -> bool {
    forall|k: int| 0 <= k < edges.len() ==> known.contains((#[trigger] edges[k]).from) && known.contains(edges[k].to)
}

fn find_pairs(all: &Vec<SourceFile>, edges: &Vec<Edge>, index: &Index) -> (out: Vec<(usize, usize)>)
    requires
        index.ok(all@),
        edges_known(edges.deep_view(), known_of(all@)),
    ensures
        out@ == pairs_of(all@, edges.deep_view()),
        forall|k: int| 0 <= k < out@.len() ==> (#[trigger] out@[k]).0 < all.len() && out@[k].1 < all.len(),
{
    let ghost view = edges.deep_view();
    let mut out: Vec<(usize, usize)> = Vec::new();
    let mut k: usize = 0;
    while k < edges.len()
        invariant
            k <= edges.len(),
            out.len() == k,
            index.ok(all@),
            view == edges.deep_view(),
            edges_known(view, known_of(all@)),
            forall|j: int| 0 <= j < k ==> (#[trigger] out@[j]) == pair_of(all@, view[j]),
            forall|j: int| 0 <= j < k ==> (#[trigger] out@[j]).0 < all.len() && out@[j].1 < all.len(),
        decreases edges.len() - k,
    {
        assert(view[k as int] == edges@[k as int].deep_view());
        assert(known_of(all@).contains(view[k as int].from));
        let a = index.find(edges[k].from.as_str(), Ghost(all@));
        let b = index.find(edges[k].to.as_str(), Ghost(all@));
        out.push((a, b));
        k = k + 1;
    }
    assert(out@ =~= pairs_of(all@, view));
    out
}

fn count_refs(all: &Vec<SourceFile>, pairs: &Vec<(usize, usize)>, tests: bool) -> (out: Vec<usize>)
    requires
        forall|k: int| 0 <= k < pairs@.len() ==> (#[trigger] pairs@[k]).0 < all.len() && pairs@[k].1 < all.len(),
    ensures
        out.len() == all.len(),
        forall|i: int|
            0 <= i < out.len() ==> #[trigger] out@[i] == refs_to(all@, pairs@, i, tests, pairs@.len() as int),
{
    let mut out: Vec<usize> = Vec::new();
    let mut i: usize = 0;
    while i < all.len()
        invariant
            i <= all.len(),
            out.len() == i,
            forall|j: int| 0 <= j < i ==> #[trigger] out@[j] == 0,
        decreases all.len() - i,
    {
        out.push(0);
        i = i + 1;
    }
    let mut k: usize = 0;
    while k < pairs.len()
        invariant
            k <= pairs.len(),
            out.len() == all.len(),
            forall|k: int| 0 <= k < pairs@.len() ==> (#[trigger] pairs@[k]).0 < all.len() && pairs@[k].1 < all.len(),
            forall|i: int| 0 <= i < out.len() ==> #[trigger] out@[i] <= k,
            forall|i: int| 0 <= i < out.len() ==> #[trigger] out@[i] == refs_to(all@, pairs@, i, tests, k as int),
        decreases pairs.len() - k,
    {
        let (a, b) = pairs[k];
        assert(pairs@[k as int].0 < all.len() && pairs@[k as int].1 < all.len());
        let test = all[a].kind == FileKind::Test;
        if test == tests {
            let ghost was = out@;
            let n: usize = out[b];
            out.set(b, n + 1);
            assert forall|i: int| 0 <= i < out.len() implies #[trigger] out@[i] == refs_to(
                all@,
                pairs@,
                i,
                tests,
                k + 1,
            ) by {
                assert(was[i] == refs_to(all@, pairs@, i, tests, k as int));
            }
        } else {
            assert forall|i: int| 0 <= i < out.len() implies #[trigger] out@[i] == refs_to(
                all@,
                pairs@,
                i,
                tests,
                k + 1,
            ) by {}
        }
        k = k + 1;
    }
    out
}

fn mark_members(n: usize, list: &Vec<Vec<usize>>) -> (out: Vec<bool>)
    requires
        forall|c: int, k: int| 0 <= c < list@.len() && 0 <= k < list@[c]@.len() ==> #[trigger] list@[c]@[k] < n,
    ensures
        out.len() == n,
        forall|i: int| 0 <= i < n ==> #[trigger] out@[i] == in_some(list.deep_view(), i as usize),
{
    let ghost view = list.deep_view();
    let mut out: Vec<bool> = Vec::new();
    let mut i: usize = 0;
    while i < n
        invariant
            i <= n,
            out.len() == i,
            forall|j: int| 0 <= j < i ==> !#[trigger] out@[j],
        decreases n - i,
    {
        out.push(false);
        i = i + 1;
    }
    let mut c: usize = 0;
    while c < list.len()
        invariant
            c <= list.len(),
            out.len() == n,
            view == list.deep_view(),
            forall|c: int, k: int| 0 <= c < list@.len() && 0 <= k < list@[c]@.len() ==> #[trigger] list@[c]@[k] < n,
            forall|i: int| 0 <= i < n ==> #[trigger] out@[i] == in_some(view.take(c as int), i as usize),
        decreases list.len() - c,
    {
        let comp = &list[c];
        assert(view[c as int] == comp.deep_view());
        let ghost before = out@;
        let mut k: usize = 0;
        while k < comp.len()
            invariant
                k <= comp.len(),
                c < list.len(),
                out.len() == n,
                before.len() == n,
                *comp == list@[c as int],
                forall|c: int, k: int| 0 <= c < list@.len() && 0 <= k < list@[c]@.len() ==> #[trigger] list@[c]@[k] < n,
                forall|i: int|
                    0 <= i < n ==> #[trigger] out@[i] == (before[i] || comp@.take(k as int).contains(i as usize)),
            decreases comp.len() - k,
        {
            let v: usize = comp[k];
            assert(list@[c as int]@[k as int] < n);
            let ghost was = out@;
            out.set(v, true);
            assert forall|i: int| 0 <= i < n implies #[trigger] out@[i] == (before[i] || comp@.take(k + 1).contains(
                i as usize,
            )) by {
                let a = comp@.take(k as int);
                let b = comp@.take(k + 1);
                assert(was[i] == (before[i] || a.contains(i as usize)));
                assert(b[k as int] == v);
                if a.contains(i as usize) {
                    let j = choose|j: int| 0 <= j < a.len() && a[j] == i as usize;
                    assert(b[j] == i as usize);
                }
                if b.contains(i as usize) && i != v {
                    let j = choose|j: int| 0 <= j < b.len() && b[j] == i as usize;
                    assert(a[j] == i as usize);
                }
            }
            k = k + 1;
        }
        assert(comp@.take(comp@.len() as int) =~= comp@);
        assert(comp.deep_view() =~= comp@);
        assert forall|i: int| 0 <= i < n implies #[trigger] out@[i] == in_some(view.take(c + 1), i as usize) by {
            let a = view.take(c as int);
            let b = view.take(c + 1);
            assert(before[i] == in_some(a, i as usize));
            assert(b[c as int] == comp@);
            if in_some(a, i as usize) {
                let j = choose|j: int| 0 <= j < a.len() && (#[trigger] a[j]).contains(i as usize);
                assert(b[j] == a[j]);
            }
            if in_some(b, i as usize) && !comp@.contains(i as usize) {
                let j = choose|j: int| 0 <= j < b.len() && (#[trigger] b[j]).contains(i as usize);
                assert(a[j] == b[j]);
            }
        }
        c = c + 1;
    }
    assert(view.take(view.len() as int) =~= view);
    out
}

// ---------- cycles ----------

/// The paths of the members of a cycle.
pub open spec fn paths_of(all: Seq<SourceFile>, comp: Seq<usize>) -> Seq<Chars> {
    Seq::new(comp.len(), |k: int| all[comp[k] as int].path@)
}

/// Every member is a Rust file.
pub open spec fn all_rust(all: Seq<SourceFile>, comp: Seq<usize>) -> bool {
    forall|k: int| 0 <= k < comp.len() ==> all[#[trigger] comp[k] as int].lang == Language::Rust
}

/// The size from which what a single cut leaves of a cycle of `n` is no break; none where that is not
/// known.
pub open spec fn floor_at(floors: Seq<usize>, n: nat) -> usize {
    if n < floors.len() {
        floors[n as int]
    } else {
        usize::MAX
    }
}

/// The cycle of a component.
pub open spec fn cycle_of(
    all: Seq<SourceFile>,
    comp: Seq<usize>,
    edges: Seq<EdgeView>,
    cfg: Deps,
    floors: Seq<usize>,
) -> CycleView {
    let members = sorted_texts(paths_of(all, comp));
    CycleView {
        members,
        dir: common_of(dirs_of(members)),
        cuts: if members.len() >= cfg.min_cycle_size_to_cut && (cfg.cut_rust_cycles || !all_rust(all, comp)) {
            Some(cuts_of(members, members.len() as usize, edges, cfg, floor_at(floors, members.len())))
        } else {
            None
        },
    }
}

/// Keys by size, the largest first.
pub open spec fn size_keys(list: Seq<CycleView>) -> Seq<KeyView> {
    Seq::new(
        list.len(),
        |i: int| KeyView { a: (usize::MAX - list[i].members.len()) as usize, b: 0, s: Seq::empty(), c: 0 },
    )
}

/// The cycles, the largest first.
pub open spec fn by_size(list: Seq<CycleView>) -> Seq<CycleView> {
    Seq::new(list.len(), |i: int| list[ordered(size_keys(list), list.len() as int)[i]])
}

/// The file cycles as they are found.
pub open spec fn file_cycles_in(
    all: Seq<SourceFile>,
    list: Seq<Seq<usize>>,
    edges: Seq<EdgeView>,
    cfg: Deps,
    floors: Seq<usize>,
) -> Seq<CycleView> {
    Seq::new(list.len(), |c: int| cycle_of(all, list[c], edges, cfg, floors))
}

fn make_cycle(all: &Vec<SourceFile>, comp: &Vec<usize>, edges: &Vec<Edge>, cfg: &Deps, floors: &Vec<usize>) -> (r: Cycle)
    requires
        forall|k: int| 0 <= k < comp@.len() ==> #[trigger] comp@[k] < all.len(),
    ensures
        r.deep_view() == cycle_of(all@, comp@, edges.deep_view(), *cfg, floors@),
{
    let mut paths: Vec<String> = Vec::new();
    let mut rust: bool = true;
    let mut k: usize = 0;
    while k < comp.len()
        invariant
            k <= comp.len(),
            paths.len() == k,
            forall|k: int| 0 <= k < comp@.len() ==> #[trigger] comp@[k] < all.len(),
            forall|j: int| 0 <= j < k ==> (#[trigger] paths@[j])@ == all@[comp@[j] as int].path@,
            rust == forall|j: int| 0 <= j < k ==> all@[#[trigger] comp@[j] as int].lang == Language::Rust,
        decreases comp.len() - k,
    {
        let i: usize = comp[k];
        assert(comp@[k as int] < all.len());
        paths.push(all[i].path.as_str().to_owned());
        if all[i].lang != Language::Rust {
            rust = false;
        }
        k = k + 1;
    }
    assert(paths.deep_view() =~= paths_of(all@, comp@));
    let members = sort_texts(&paths);
    assert(members.len() == members.deep_view().len());
    let n: usize = members.len();
    let cuts = if n >= cfg.min_cycle_size_to_cut && (cfg.cut_rust_cycles || !rust) {
        let floor: usize = if n < floors.len() {
            floors[n]
        } else {
            usize::MAX
        };
        Some(cuts_for(&members, edges, cfg, floor))
    } else {
        None
    };
    let dir = common_dir(&members);
    Cycle { members, dir, cuts }
}

fn sort_cycles(list: Vec<Cycle>) -> (out: Vec<Cycle>)
    ensures
        out.deep_view() == by_size(list.deep_view()),
{
    let ghost view = list.deep_view();
    let mut keys: Vec<Key> = Vec::new();
    let mut k: usize = 0;
    while k < list.len()
        invariant
            k <= list.len(),
            keys.len() == k,
            view == list.deep_view(),
            forall|j: int| 0 <= j < k ==> (#[trigger] keys@[j]).deep_view() == size_keys(view)[j],
        decreases list.len() - k,
    {
        assert(view[k as int] == list@[k as int].deep_view());
        assert(list@[k as int].members.len() == list@[k as int].members.deep_view().len());
        let none = String::new();
        assert(none@ =~= Seq::<char>::empty());
        keys.push(Key { a: usize::MAX - list[k].members.len(), b: 0, s: none, c: 0 });
        k = k + 1;
    }
    assert(keys.deep_view() =~= size_keys(view));
    let order = stable_order(&keys);
    let mut rest = list;
    let ghost items = rest@;
    proof {
        crate::order::ordered_bounds(size_keys(view), view.len() as int);
    }
    let mut out: Vec<Cycle> = Vec::new();
    k = 0;
    while k < order.len()
        invariant
            k <= order.len() == rest.len(),
            out.len() == k,
            rest@ == items,
            view.len() == items.len(),
            forall|j: int| 0 <= j < items.len() ==> view[j] == (#[trigger] items[j]).deep_view(),
            ints(order@) == ordered(size_keys(view), view.len() as int),
            forall|j: int| 0 <= j < order.len() ==> #[trigger] order@[j] < rest.len(),
            forall|j: int| 0 <= j < k ==> (#[trigger] out@[j]).deep_view() == by_size(view)[j],
        decreases order.len() - k,
    {
        let o: usize = order[k];
        assert(ints(order@)[k as int] == o as int);
        assert(view[o as int] == items[o as int].deep_view());
        out.push(copy_cycle(&rest[o]));
        k = k + 1;
    }
    assert(out.deep_view() =~= by_size(view));
    out
}

fn copy_cycle(c: &Cycle) -> (r: Cycle)
    ensures
        r.deep_view() == c.deep_view(),
{
    Cycle {
        members: crate::text::copy_list(&c.members),
        dir: c.dir.as_str().to_owned(),
        cuts: match &c.cuts {
            Some(x) => Some(crate::deps::cuts::copy_cuts(x)),
            None => None,
        },
    }
}

fn find_file_cycles(
    all: &Vec<SourceFile>,
    list: &Vec<Vec<usize>>,
    edges: &Vec<Edge>,
    cfg: &Deps,
    floors: &Vec<usize>,
) -> (out: Vec<Cycle>)
    requires
        forall|c: int, k: int| 0 <= c < list@.len() && 0 <= k < list@[c]@.len() ==> #[trigger] list@[c]@[k] < all.len(),
    ensures
        out.deep_view() == by_size(file_cycles_in(all@, list.deep_view(), edges.deep_view(), *cfg, floors@)),
{
    let ghost view = list.deep_view();
    let mut out: Vec<Cycle> = Vec::new();
    let mut c: usize = 0;
    while c < list.len()
        invariant
            c <= list.len(),
            out.len() == c,
            view == list.deep_view(),
            forall|c: int, k: int| 0 <= c < list@.len() && 0 <= k < list@[c]@.len() ==> #[trigger] list@[c]@[k] < all.len(),
            forall|j: int|
                0 <= j < c ==> (#[trigger] out@[j]).deep_view() == cycle_of(all@, view[j], edges.deep_view(), *cfg, floors@),
        decreases list.len() - c,
    {
        assert(view[c as int] == list@[c as int].deep_view());
        assert(list@[c as int].deep_view() =~= list@[c as int]@);
        out.push(make_cycle(all, &list[c], edges, cfg, floors));
        c = c + 1;
    }
    assert(out.deep_view() =~= file_cycles_in(all@, view, edges.deep_view(), *cfg, floors@));
    sort_cycles(out)
}

// ---------- directories ----------

/// An edge between directories: it leaves its directory, and not from a test.
pub open spec fn between_dirs(all: Seq<SourceFile>, e: EdgeView) -> bool {
    dir_of(e.from) != dir_of(e.to) && all[file_at(all, e.from)].kind != FileKind::Test
}

/// A list and one more name, where it is new.
pub open spec fn with_name(list: Seq<Chars>, name: Chars) -> Seq<Chars> {
    if list.contains(name) {
        list
    } else {
        list.push(name)
    }
}

/// The directories the first `n` edges run between, in the order they are met.
pub open spec fn dirs_upto(all: Seq<SourceFile>, edges: Seq<EdgeView>, n: int) -> Seq<Chars>
    decreases n,
{
    if n <= 0 {
        Seq::empty()
    } else {
        let rest = dirs_upto(all, edges, n - 1);
        let e = edges[n - 1];
        if between_dirs(all, e) {
            with_name(with_name(rest, dir_of(e.from)), dir_of(e.to))
        } else {
            rest
        }
    }
}

/// The edges between directories, by their places.
pub open spec fn dir_pairs(all: Seq<SourceFile>, edges: Seq<EdgeView>, dirs: Seq<Chars>, n: int) -> Seq<(usize, usize)>
    decreases n,
{
    if n <= 0 {
        Seq::empty()
    } else {
        let rest = dir_pairs(all, edges, dirs, n - 1);
        let e = edges[n - 1];
        if between_dirs(all, e) {
            rest.push((place(dirs, dir_of(e.from)), place(dirs, dir_of(e.to))))
        } else {
            rest
        }
    }
}

/// The cycle of a component of directories.
pub open spec fn dir_cycle_of(dirs: Seq<Chars>, comp: Seq<usize>) -> CycleView {
    let members = sorted_texts(Seq::new(comp.len(), |k: int| dirs[comp[k] as int]));
    CycleView { members, dir: common_of(members), cuts: None }
}

/// The directory cycles: files collapsed to their directory, the largest first.
pub open spec fn dir_cycles_of(all: Seq<SourceFile>, edges: Seq<EdgeView>) -> Seq<CycleView> {
    let n = edges.len() as int;
    let dirs = dirs_upto(all, edges, n);
    let list = cycles_in(components_of(dirs.len() as usize, dir_pairs(all, edges, dirs, n)));
    by_size(Seq::new(list.len(), |c: int| dir_cycle_of(dirs, list[c])))
}

fn find_dirs(all: &Vec<SourceFile>, edges: &Vec<Edge>, pairs: &Vec<(usize, usize)>) -> (r: Names)
    requires
        pairs@ == pairs_of(all@, edges.deep_view()),
        forall|k: int| 0 <= k < pairs@.len() ==> (#[trigger] pairs@[k]).0 < all.len() && pairs@[k].1 < all.len(),
        forall|k: int|
            0 <= k < edges.deep_view().len() ==> 0 <= file_at(all@, (#[trigger] edges.deep_view()[k]).from) < all.len(),
    ensures
        r.ok(),
        r@ == dirs_upto(all@, edges.deep_view(), edges.deep_view().len() as int),
{
    let ghost view = edges.deep_view();
    assert(view.len() == edges.len());
    let mut names = Names::new();
    let mut k: usize = 0;
    while k < edges.len()
        invariant
            k <= edges.len() == pairs.len(),
            view == edges.deep_view(),
            pairs@ == pairs_of(all@, view),
            forall|k: int| 0 <= k < pairs@.len() ==> (#[trigger] pairs@[k]).0 < all.len() && pairs@[k].1 < all.len(),
            forall|k: int| 0 <= k < view.len() ==> 0 <= file_at(all@, (#[trigger] view[k]).from) < all.len(),
            names.ok(),
            names@ == dirs_upto(all@, view, k as int),
        decreases edges.len() - k,
    {
        let e = &edges[k];
        assert(view[k as int] == e.deep_view());
        let a = dir(e.from.as_str());
        let b = dir(e.to.as_str());
        assert(pairs@[k as int].0 < all.len());
        assert(pairs@[k as int] == pair_of(all@, view[k as int]));
        if !same(a.as_str(), b.as_str()) && all[pairs[k].0].kind != FileKind::Test {
            names.add(a.as_str());
            names.add(b.as_str());
        }
        k = k + 1;
    }
    names
}

proof fn dirs_grow(all: Seq<SourceFile>, edges: Seq<EdgeView>, n: int, m: int)
    requires
        n <= m,
    ensures
        dirs_upto(all, edges, n).len() <= dirs_upto(all, edges, m).len(),
        forall|i: int|
            0 <= i < dirs_upto(all, edges, n).len() ==> #[trigger] dirs_upto(all, edges, n)[i] == dirs_upto(
                all,
                edges,
                m,
            )[i],
    decreases m - n,
{
    if n < m && m > 0 {
        dirs_grow(all, edges, n, m - 1);
        let a = dirs_upto(all, edges, n);
        let b = dirs_upto(all, edges, m - 1);
        let c = dirs_upto(all, edges, m);
        assert forall|i: int| 0 <= i < a.len() implies #[trigger] a[i] == c[i] by {
            assert(a[i] == b[i]);
        }
    }
}

/// The directories an edge runs between are listed.
proof fn ends_are_listed(all: Seq<SourceFile>, edges: Seq<EdgeView>, k: int)
    requires
        0 <= k < edges.len(),
        between_dirs(all, edges[k]),
    ensures
        dirs_upto(all, edges, edges.len() as int).contains(dir_of(edges[k].from)),
        dirs_upto(all, edges, edges.len() as int).contains(dir_of(edges[k].to)),
{
    let rest = dirs_upto(all, edges, k);
    let (a, b) = (dir_of(edges[k].from), dir_of(edges[k].to));
    let one = with_name(rest, a);
    let two = with_name(one, b);
    assert(dirs_upto(all, edges, k + 1) == two);
    assert(one.contains(a)) by {
        if !rest.contains(a) {
            assert(one[rest.len() as int] == a);
        }
    }
    let i = choose|i: int| 0 <= i < one.len() && one[i] == a;
    assert(two[i] == a);
    assert(two.contains(b)) by {
        if !one.contains(b) {
            assert(two[one.len() as int] == b);
        }
    }
    let j = choose|j: int| 0 <= j < two.len() && two[j] == b;
    dirs_grow(all, edges, k + 1, edges.len() as int);
    let full = dirs_upto(all, edges, edges.len() as int);
    assert(full[i] == a);
    assert(full[j] == b);
}

proof fn place_is_found(list: Seq<Chars>, s: Chars, i: int)
    requires
        distinct(list),
        0 <= i < list.len(),
        list[i] == s,
        i <= usize::MAX,
    ensures
        place(list, s) == i,
{
    index_is_found(list, s, 0, i);
}

proof fn index_is_found(list: Seq<Chars>, s: Chars, from: int, i: int)
    requires
        distinct(list),
        0 <= from <= i < list.len(),
        list[i] == s,
    ensures
        index_from(list, s, from) == Some(i),
    decreases i - from,
{
    if from < i {
        assert(list[from] != list[i]);
        index_is_found(list, s, from + 1, i);
    }
}

fn find_dir_pairs(all: &Vec<SourceFile>, edges: &Vec<Edge>, pairs: &Vec<(usize, usize)>, names: &Names) -> (out: Vec<
    (usize, usize),
>)
    requires
        pairs@ == pairs_of(all@, edges.deep_view()),
        forall|k: int| 0 <= k < pairs@.len() ==> (#[trigger] pairs@[k]).0 < all.len() && pairs@[k].1 < all.len(),
        forall|k: int|
            0 <= k < edges.deep_view().len() ==> 0 <= file_at(all@, (#[trigger] edges.deep_view()[k]).from) < all.len(),
        names.ok(),
        names@ == dirs_upto(all@, edges.deep_view(), edges.deep_view().len() as int),
    ensures
        out@ == dir_pairs(all@, edges.deep_view(), names@, edges.deep_view().len() as int),
        forall|k: int| 0 <= k < out@.len() ==> (#[trigger] out@[k]).0 < names@.len() && out@[k].1 < names@.len(),
{
    let ghost view = edges.deep_view();
    assert(view.len() == edges.len());
    let mut out: Vec<(usize, usize)> = Vec::new();
    let mut k: usize = 0;
    while k < edges.len()
        invariant
            k <= edges.len() == pairs.len(),
            view == edges.deep_view(),
            view.len() == edges.len(),
            pairs@ == pairs_of(all@, view),
            forall|k: int| 0 <= k < pairs@.len() ==> (#[trigger] pairs@[k]).0 < all.len() && pairs@[k].1 < all.len(),
            forall|k: int| 0 <= k < view.len() ==> 0 <= file_at(all@, (#[trigger] view[k]).from) < all.len(),
            names.ok(),
            names@ == dirs_upto(all@, view, view.len() as int),
            out@ == dir_pairs(all@, view, names@, k as int),
            forall|k: int| 0 <= k < out@.len() ==> (#[trigger] out@[k]).0 < names@.len() && out@[k].1 < names@.len(),
        decreases edges.len() - k,
    {
        let e = &edges[k];
        assert(view[k as int] == e.deep_view());
        let a = dir(e.from.as_str());
        let b = dir(e.to.as_str());
        assert(pairs@[k as int].0 < all.len());
        assert(pairs@[k as int] == pair_of(all@, view[k as int]));
        if !same(a.as_str(), b.as_str()) && all[pairs[k].0].kind != FileKind::Test {
            proof {
                ends_are_listed(all@, view, k as int);
                names.are_distinct();
            }
            let x: usize = match names.find(a.as_str()) {
                Some(i) => {
                    proof {
                        place_is_found(names@, a@, i as int);
                    }
                    i
                },
                None => 0,
            };
            let y: usize = match names.find(b.as_str()) {
                Some(i) => {
                    proof {
                        place_is_found(names@, b@, i as int);
                    }
                    i
                },
                None => 0,
            };
            out.push((x, y));
        }
        k = k + 1;
    }
    out
}

fn find_dir_cycles(all: &Vec<SourceFile>, edges: &Vec<Edge>, pairs: &Vec<(usize, usize)>) -> (out: Vec<Cycle>)
    requires
        pairs@ == pairs_of(all@, edges.deep_view()),
        forall|k: int| 0 <= k < pairs@.len() ==> (#[trigger] pairs@[k]).0 < all.len() && pairs@[k].1 < all.len(),
        forall|k: int|
            0 <= k < edges.deep_view().len() ==> 0 <= file_at(all@, (#[trigger] edges.deep_view()[k]).from) < all.len(),
    ensures
        out.deep_view() == dir_cycles_of(all@, edges.deep_view()),
{
    let names = find_dirs(all, edges, pairs);
    let dpairs = find_dir_pairs(all, edges, pairs, &names);
    let list = cycles(names.len(), &dpairs);
    let ghost view = list.deep_view();
    let ghost dirs = names@;
    let mut out: Vec<Cycle> = Vec::new();
    let mut c: usize = 0;
    while c < list.len()
        invariant
            c <= list.len(),
            out.len() == c,
            view == list.deep_view(),
            dirs == names@,
            forall|c: int, k: int| 0 <= c < list@.len() && 0 <= k < list@[c]@.len() ==> #[trigger] list@[c]@[k] < names@.len(),
            forall|j: int| 0 <= j < c ==> (#[trigger] out@[j]).deep_view() == dir_cycle_of(dirs, view[j]),
        decreases list.len() - c,
    {
        let comp = &list[c];
        assert(view[c as int] == comp.deep_view());
        assert(comp.deep_view() =~= comp@);
        let mut paths: Vec<String> = Vec::new();
        let mut k: usize = 0;
        while k < comp.len()
            invariant
                k <= comp.len(),
                paths.len() == k,
                c < list.len(),
                *comp == list@[c as int],
                dirs == names@,
                forall|c: int, k: int|
                    0 <= c < list@.len() && 0 <= k < list@[c]@.len() ==> #[trigger] list@[c]@[k] < names@.len(),
                forall|j: int| 0 <= j < k ==> (#[trigger] paths@[j])@ == dirs[comp@[j] as int],
            decreases comp.len() - k,
        {
            assert(list@[c as int]@[k as int] < names@.len());
            paths.push(names.name(comp[k]).to_owned());
            k = k + 1;
        }
        assert(paths.deep_view() =~= Seq::new(comp@.len(), |k: int| dirs[comp@[k] as int]));
        let members = sort_texts(&paths);
        let d = common_dir_of(&members);
        out.push(Cycle { members, dir: d, cuts: None });
        c = c + 1;
    }
    assert(out.deep_view() =~= Seq::new(view.len(), |c: int| dir_cycle_of(dirs, view[c])));
    sort_cycles(out)
}

// ---------- the graph ----------

/// The graph of files and of what each of them states.
pub open spec fn graph_of(all: Seq<SourceFile>, raws: Seq<Seq<RawImportView>>, cfg: Deps, floors: Seq<usize>) -> GraphView {
    let stated = edges_of(all, raws, cfg);
    let edges = last_from(stated, 0);
    let pairs = pairs_of(all, stated);
    let list = cycles_in(components_of(all.len() as usize, pairs));
    GraphView {
        files: deps_upto(all, raws, pairs, list, all.len() as int, cfg),
        file_cycles: by_size(file_cycles_in(all, list, edges, cfg, floors)),
        dir_cycles: dir_cycles_of(all, stated),
        edges,
    }
}

proof fn file_edges_known(path: Chars, list: Targets, cost: u32, known: Seq<Chars>)
    requires
        targets_known(list, known),
        known.contains(path),
    ensures
        edges_known(target_edges(path, list, cost), known),
{
    let keys = target_keys(list);
    crate::order::ordered_bounds(keys, list.len() as int);
    let edges = target_edges(path, list, cost);
    let order = ordered(keys, list.len() as int);
    assert forall|k: int| 0 <= k < edges.len() implies known.contains((#[trigger] edges[k]).from) && known.contains(
        edges[k].to,
    ) by {
        assert(0 <= order[k] < list.len());
        assert(known.contains(list[order[k]].0));
    }
}

/// The graph of files and of what each of them states; `floors` holds, by the size of a cycle, the
/// size from which what a single cut leaves is no break.
pub fn assemble(all: &Vec<SourceFile>, raws: &Vec<Vec<RawImport>>, cfg: &Deps, floors: &Vec<usize>) -> (r: DepGraph)
    requires
        raws.len() == all.len(),
    ensures
        r@ == graph_of(all@, raws.deep_view(), *cfg, floors@),
        distinct(keys_of(r@.files)),
        one_each(r@.edges),
{
    let index = index_files(all);
    let ghost rv = raws.deep_view();
    let ghost known = known_of(all@);
    let none: Vec<RawImport> = Vec::new();
    assert(none.deep_view() =~= Seq::<RawImportView>::empty());
    let mut edges: Vec<Edge> = Vec::new();
    let mut outs: Vec<usize> = Vec::new();
    let mut externals: Vec<usize> = Vec::new();
    assert(edges.deep_view() =~= Seq::<EdgeView>::empty());
    let mut i: usize = 0;
    while i < all.len()
        invariant
            i <= all.len() == raws.len(),
            index.ok(all@),
            rv == raws.deep_view(),
            known == known_of(all@),
            none.deep_view() == Seq::<RawImportView>::empty(),
            outs.len() == i,
            externals.len() == i,
            edges.deep_view() == edges_upto(all@, rv, i as int, *cfg),
            edges_known(edges.deep_view(), known),
            forall|j: int|
                0 <= j < i && in_repo(all@[j]) ==> (#[trigger] outs@[j]) == targets_at(all@, rv, j, *cfg).0.len(),
            forall|j: int|
                0 <= j < i && in_repo(all@[j]) ==> (#[trigger] externals@[j]) == targets_at(all@, rv, j, *cfg).1,
        decreases all.len() - i,
    {
        let f = &all[i];
        assert(rv[i as int] == raws@[i as int].deep_view());
        if f.kind != FileKind::Vendored {
            let stated = if f.kind == FileKind::Generated {
                &none
            } else {
                &raws[i]
            };
            let (list, external) = find_targets(f.path.as_str(), f.lang, stated, &index, cfg, Ghost(all@));
            let ghost was = edges.deep_view();
            let ghost lv = list.deep_view();
            add_edges(f.path.as_str(), &list, cfg.glob_import_symbol_cost, &mut edges);
            proof {
                file_is_known(all@, all@.len() as int, i as int);
                file_edges_known(f.path@, lv, cfg.glob_import_symbol_cost, known);
                let more = target_edges(f.path@, lv, cfg.glob_import_symbol_cost);
                let now = edges.deep_view();
                assert forall|k: int| 0 <= k < now.len() implies known.contains((#[trigger] now[k]).from) && known.contains(
                    now[k].to,
                ) by {
                    if k < was.len() {
                        assert(now[k] == was[k]);
                    } else {
                        assert(now[k] == more[k - was.len()]);
                    }
                }
            }
            assert(list.len() == lv.len());
            outs.push(list.len());
            externals.push(external);
        } else {
            let ghost was = edges.deep_view();
            assert(was + Seq::<EdgeView>::empty() =~= was);
            outs.push(0);
            externals.push(0);
        }
        i = i + 1;
    }
    let ghost ev = edges.deep_view();
    assert(ev == edges_of(all@, rv, *cfg));
    let pairs = find_pairs(all, &edges, &index);
    let fan_in = count_refs(all, &pairs, false);
    let test_refs = count_refs(all, &pairs, true);
    let list = cycles(all.len(), &pairs);
    let marks = mark_members(all.len(), &list);
    let ghost lv = list.deep_view();
    let mut files: Vec<(String, FileDeps)> = Vec::new();
    let mut names = Names::new();
    assert(files.deep_view() =~= Seq::<(Chars, FileDeps)>::empty());
    assert(names@ =~= keys_of(files.deep_view()));
    i = 0;
    while i < all.len()
        invariant
            i <= all.len(),
            outs.len() == all.len(),
            externals.len() == all.len(),
            fan_in.len() == all.len(),
            test_refs.len() == all.len(),
            marks.len() == all.len(),
            lv == list.deep_view(),
            forall|j: int|
                0 <= j < all.len() && in_repo(all@[j]) ==> (#[trigger] outs@[j]) == targets_at(all@, rv, j, *cfg).0.len(),
            forall|j: int|
                0 <= j < all.len() && in_repo(all@[j]) ==> (#[trigger] externals@[j]) == targets_at(all@, rv, j, *cfg).1,
            forall|j: int|
                0 <= j < all.len() ==> #[trigger] fan_in@[j] == refs_to(all@, pairs@, j, false, pairs@.len() as int),
            forall|j: int|
                0 <= j < all.len() ==> #[trigger] test_refs@[j] == refs_to(all@, pairs@, j, true, pairs@.len() as int),
            forall|j: int| 0 <= j < all.len() ==> #[trigger] marks@[j] == in_some(lv, j as usize),
            names.ok(),
            names@ == keys_of(files.deep_view()),
            files.deep_view() == deps_upto(all@, rv, pairs@, lv, i as int, *cfg),
        decreases all.len() - i,
    {
        if all[i].kind != FileKind::Vendored {
            let d = FileDeps {
                fan_in: fan_in[i],
                fan_out: outs[i],
                test_refs: test_refs[i],
                external: externals[i],
                in_cycle: marks[i],
            };
            assert(outs@[i as int] == targets_at(all@, rv, i as int, *cfg).0.len());
            assert(externals@[i as int] == targets_at(all@, rv, i as int, *cfg).1);
            assert(d == deps_at(all@, rv, pairs@, lv, i as int, *cfg));
            put_entry(&mut names, &mut files, all[i].path.as_str(), d);
        }
        i = i + 1;
    }
    proof {
        names.are_distinct();
    }
    proof {
        assert forall|k: int| 0 <= k < ev.len() implies 0 <= file_at(all@, (#[trigger] ev[k]).from) < all.len() by {
            assert(known.contains(ev[k].from));
            known_has_file(all@, all@.len() as int, ev[k].from);
            file_at_is_file(all@, ev[k].from, all@.len() as int);
        }
    }
    let dir_cycles = find_dir_cycles(all, &edges, &pairs);
    let edges = keep_last(edges, all, &pairs);
    proof {
        last_edges_are_one_each(ev);
    }
    let file_cycles = find_file_cycles(all, &list, &edges, cfg, floors);
    DepGraph { files, file_cycles, dir_cycles, edges }
}

/// `raws` is what a file states, as its grammar reads it.
pub open spec fn says_imports(f: SourceFile, raws: Seq<RawImportView>) -> bool {
    exists|root: Option<Nodes>| #[trigger] reads_as(f.lang, f.content@, root) && raws == imports_of(root, f.lang)
}

/// What a file states.
pub fn extract(f: &SourceFile) -> (out: Vec<RawImport>)
    ensures
        says_imports(*f, out.deep_view()),
{
    let tree = SyntaxTree::parse(f.lang, f.content.as_str());
    let ghost root = opt_nodes(tree);
    let out = match &tree {
        Some(t) => extract_tree(t, f.lang),
        None => {
            let none: Vec<RawImport> = Vec::new();
            assert(none.deep_view() =~= Seq::<RawImportView>::empty());
            none
        },
    };
    assert(reads_as(f.lang, f.content@, root));
    out
}

/// `raws` holds what each file states; nothing of files that are not walked.
pub open spec fn all_say(all: Seq<SourceFile>, raws: Seq<Seq<RawImportView>>) -> bool {
    &&& raws.len() == all.len()
    &&& forall|i: int|
        0 <= i < all.len() && all[i].kind != FileKind::Generated && in_repo(all[i]) ==> says_imports(
            all[i],
            #[trigger] raws[i],
        )
}

/// The import graph of a file set: the graph of what the grammars read in its files.
pub fn build(all: &Vec<SourceFile>, cfg: &Deps, floors: &Vec<usize>) -> (r: DepGraph)
    ensures
        exists|raws: Seq<Seq<RawImportView>>| #[trigger] all_say(all@, raws) && r@ == graph_of(all@, raws, *cfg, floors@),
        distinct(keys_of(r@.files)),
        one_each(r@.edges),
{
    let mut raws: Vec<Vec<RawImport>> = Vec::new();
    let mut i: usize = 0;
    while i < all.len()
        invariant
            i <= all.len(),
            raws.len() == i,
            forall|j: int|
                0 <= j < i && all@[j].kind != FileKind::Generated && in_repo(all@[j]) ==> says_imports(
                    all@[j],
                    (#[trigger] raws@[j]).deep_view(),
                ),
        decreases all.len() - i,
    {
        let f = &all[i];
        if f.kind == FileKind::Generated || f.kind == FileKind::Vendored {
            raws.push(Vec::new());
        } else {
            raws.push(extract(f));
        }
        i = i + 1;
    }
    let ghost rv = raws.deep_view();
    proof {
        assert forall|i: int| 0 <= i < all@.len() && all@[i].kind != FileKind::Generated && in_repo(all@[i]) implies says_imports(
            all@[i],
            #[trigger] rv[i],
        ) by {
            assert(rv[i] == raws@[i].deep_view());
        }
        assert(all_say(all@, rv));
    }
    assemble(all, &raws, cfg, floors)
}

} // verus!
