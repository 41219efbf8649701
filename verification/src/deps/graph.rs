//! Edges, what they carry, and the components of a graph.

use vstd::prelude::*;

use crate::deps::extract::{EdgeKind, RawImport, RawImportView};
use crate::names::capped;
use crate::order::{dedup_texts, deduped, sort_texts, sorted_texts};
use crate::text::{copy_list, extend, put, Chars};

verus! {

// ---------- edges ----------

/// One import edge and what it carries.
pub struct Edge {
    pub from: String,
    pub to: String,
    pub kind: EdgeKind,
    /// Distinct imported names, plus the cost of a wildcard for each. For a `mod` edge this is
    /// informational: its cut cost is infinite.
    pub symbols: u32,
    pub names: Vec<String>,
    pub glob: bool,
    /// Line of the first contributing import.
    pub line: usize,
}

/// An [`Edge`] by its contents.
pub struct EdgeView {
    pub from: Chars,
    pub to: Chars,
    pub kind: EdgeKind,
    pub symbols: u32,
    pub names: Seq<Chars>,
    pub glob: bool,
    pub line: usize,
}

impl DeepView for Edge {
    type V = EdgeView;

    open spec fn deep_view(&self) -> EdgeView {
        EdgeView {
            from: self.from@,
            to: self.to@,
            kind: self.kind,
            symbols: self.symbols,
            names: self.names.deep_view(),
            glob: self.glob,
            line: self.line,
        }
    }
}

/// An edge with the same contents.
pub fn copy_edge(e: &Edge) -> (r: Edge)
    ensures
        r.deep_view() == e.deep_view(),
{
    Edge {
        from: e.from.as_str().to_owned(),
        to: e.to.as_str().to_owned(),
        kind: e.kind,
        symbols: e.symbols,
        names: copy_list(&e.names),
        glob: e.glob,
        line: e.line,
    }
}

/// What one file's imports of one target add up to, before it becomes an edge.
pub struct Carried {
    pub is_mod: bool,
    pub names: Vec<String>,
    pub globs: u32,
    pub type_names: Vec<String>,
    pub type_globs: u32,
    pub line: usize,
}

/// A [`Carried`] by its contents.
pub struct CarriedView {
    pub is_mod: bool,
    pub names: Seq<Chars>,
    pub globs: u32,
    pub type_names: Seq<Chars>,
    pub type_globs: u32,
    pub line: usize,
}

impl DeepView for Carried {
    type V = CarriedView;

    open spec fn deep_view(&self) -> CarriedView {
        CarriedView {
            is_mod: self.is_mod,
            names: self.names.deep_view(),
            globs: self.globs,
            type_names: self.type_names.deep_view(),
            type_globs: self.type_globs,
            line: self.line,
        }
    }
}

/// Nothing yet.
pub open spec fn nothing_carried() -> CarriedView {
    CarriedView {
        is_mod: false,
        names: Seq::empty(),
        globs: 0,
        type_names: Seq::empty(),
        type_globs: 0,
        line: 0,
    }
}

/// One more wildcard, where it is one.
pub open spec fn one_more(n: u32, glob: bool) -> u32 {
    if glob {
        capped(n + 1)
    } else {
        n
    }
}

/// What is carried with one more import.
pub open spec fn carried_with(c: CarriedView, r: RawImportView) -> CarriedView {
    let line = if c.line == 0 || r.line < c.line {
        r.line
    } else {
        c.line
    };
    match r.kind {
        EdgeKind::Mod => CarriedView { is_mod: true, names: c.names + r.syms, line, ..c },
        EdgeKind::Use => CarriedView { names: c.names + r.syms, globs: one_more(c.globs, r.glob), line, ..c },
        EdgeKind::TypeOnly => CarriedView {
            type_names: c.type_names + r.syms,
            type_globs: one_more(c.type_globs, r.glob),
            line,
            ..c
        },
    }
}

/// What is carried amounts to: a declaration wins over a use, a use over a type.
pub open spec fn carried_kind(c: CarriedView) -> EdgeKind {
    if c.is_mod {
        EdgeKind::Mod
    } else if c.names.len() > 0 || c.globs > 0 {
        EdgeKind::Use
    } else {
        EdgeKind::TypeOnly
    }
}

/// Each name once, in order.
pub open spec fn name_set(names: Seq<Chars>) -> Seq<Chars> {
    deduped(sorted_texts(names))
}

/// The edge of what is carried.
pub open spec fn edge_of(c: CarriedView, from: Chars, to: Chars, glob_cost: u32) -> EdgeView {
    let kind = carried_kind(c);
    let names = name_set(
        if kind == EdgeKind::TypeOnly {
            c.type_names
        } else {
            c.names
        },
    );
    let globs = if kind == EdgeKind::TypeOnly {
        c.type_globs
    } else {
        c.globs
    };
    EdgeView {
        from,
        to,
        kind,
        symbols: capped(names.len() + globs * glob_cost),
        names,
        glob: globs > 0,
        line: c.line,
    }
}

fn more_globs(n: u32, glob: bool) -> (r: u32)
    ensures
        r == one_more(n, glob),
{
    if glob {
        n.saturating_add(1)
    } else {
        n
    }
}

fn count_symbols(names: usize, globs: u32, cost: u32) -> (n: u32)
    ensures
        n == capped(names + globs * cost),
{
    match globs.checked_mul(cost) {
        Some(more) => if names <= u32::MAX as usize {
            let n: u32 = names as u32;
            n.saturating_add(more)
        } else {
            assert(globs * cost >= 0) by (nonlinear_arith)
                requires
                    globs >= 0,
                    cost >= 0,
            ;
            u32::MAX
        },
        None => u32::MAX,
    }
}

impl Carried {
    /// Nothing yet.
    pub fn new() -> (r: Carried)
        ensures
            r.deep_view() == nothing_carried(),
    {
        let r = Carried {
            is_mod: false,
            names: Vec::new(),
            globs: 0,
            type_names: Vec::new(),
            type_globs: 0,
            line: 0,
        };
        assert(r.names.deep_view() =~= Seq::<Chars>::empty());
        assert(r.type_names.deep_view() =~= Seq::<Chars>::empty());
        r
    }

    /// One more import.
    pub fn add(&mut self, r: &RawImport)
        ensures
            final(self).deep_view() == carried_with(old(self).deep_view(), r.deep_view()),
    {
        if self.line == 0 || r.line < self.line {
            self.line = r.line;
        }
        match r.kind {
            EdgeKind::Mod => {
                self.is_mod = true;
                extend(&mut self.names, &r.syms);
            },
            EdgeKind::Use => {
                extend(&mut self.names, &r.syms);
                self.globs = more_globs(self.globs, r.glob);
            },
            EdgeKind::TypeOnly => {
                extend(&mut self.type_names, &r.syms);
                self.type_globs = more_globs(self.type_globs, r.glob);
            },
        }
    }

    /// The edge of what is carried.
    pub fn into_edge(&self, from: &str, to: &str, glob_cost: u32) -> (e: Edge)
        ensures
            e.deep_view() == edge_of(self.deep_view(), from@, to@, glob_cost),
    {
        assert(self.names.len() == self.names.deep_view().len());
        let kind = if self.is_mod {
            EdgeKind::Mod
        } else if self.names.len() > 0 || self.globs > 0 {
            EdgeKind::Use
        } else {
            EdgeKind::TypeOnly
        };
        let (list, globs): (&Vec<String>, u32) = if kind == EdgeKind::TypeOnly {
            (&self.type_names, self.type_globs)
        } else {
            (&self.names, self.globs)
        };
        let names = dedup_texts(&sort_texts(list));
        assert(names.len() == names.deep_view().len());
        Edge {
            from: from.to_owned(),
            to: to.to_owned(),
            kind,
            symbols: count_symbols(names.len(), globs, glob_cost),
            names,
            glob: globs > 0,
            line: self.line,
        }
    }
}

/// An edge that carries a `mod` declaration says so, whatever else it carries.
pub proof fn a_declaration_is_never_an_import(c: CarriedView, r: RawImportView, from: Chars, to: Chars, glob_cost: u32)
    ensures
        c.is_mod ==> edge_of(carried_with(c, r), from, to, glob_cost).kind == EdgeKind::Mod,
        r.kind == EdgeKind::Mod ==> edge_of(carried_with(c, r), from, to, glob_cost).kind == EdgeKind::Mod,
{
}

// ---------- components ----------

/// A walk along edges.
pub open spec fn walk_in(edges: Seq<(usize, usize)>, p: Seq<usize>) -> bool {
    p.len() > 0 && forall|k: int| 0 <= k < p.len() - 1 ==> edges.contains((#[trigger] p[k], p[k + 1]))
}

/// Some walk leads from `a` to `b`.
pub open spec fn reaches(edges: Seq<(usize, usize)>, a: usize, b: usize) -> bool {
    exists|p: Seq<usize>| #[trigger] walk_in(edges, p) && p[0] == a && p.last() == b
}

/// `a` and `b` stand in one list.
pub open spec fn together(list: Seq<Seq<usize>>, a: usize, b: usize) -> bool {
    exists|c: int| 0 <= c < list.len() && (#[trigger] list[c]).contains(a) && list[c].contains(b)
}

/// Every number below `n` stands in the lists, and nothing else does.
pub open spec fn covers(list: Seq<Seq<usize>>, n: usize) -> bool {
    &&& forall|c: int, k: int| 0 <= c < list.len() && 0 <= k < list[c].len() ==> #[trigger] list[c][k] < n
    &&& forall|v: usize| v < n ==> #[trigger] together(list, v, v)
}

/// No number stands twice.
pub open spec fn once(list: Seq<Seq<usize>>) -> bool {
    forall|c: int, k: int, d: int, j: int|
        0 <= c < list.len() && 0 <= k < list[c].len() && 0 <= d < list.len() && 0 <= j < list[d].len() && (c != d || k != j)
            ==> #[trigger] list[c][k] != #[trigger] list[d][j]
}

/// Two numbers below `n` stand in one list exactly where each reaches the other.
pub open spec fn joins_mutual(list: Seq<Seq<usize>>, n: usize, edges: Seq<(usize, usize)>) -> bool {
    forall|a: usize, b: usize|
        a < n && b < n ==> (#[trigger] together(list, a, b) <==> reaches(edges, a, b) && reaches(edges, b, a))
}

/// What the components of a graph are, in the order they are found.
pub uninterp spec fn components_of(n: usize, edges: Seq<(usize, usize)>) -> Seq<Seq<usize>>;

/// `petgraph::algo::tarjan_scc` on a graph of `n` nodes: its strongly connected components, which
/// hold every node once. Two nodes stand in one component exactly where each reaches the other. The
/// order of the components, and of the nodes in one, is a function of the graph.
#[verifier::external_body]
pub(crate) fn components(n: usize, edges: &Vec<(usize, usize)>) -> (out: Vec<Vec<usize>>)
    requires
        forall|k: int| 0 <= k < edges@.len() ==> (#[trigger] edges@[k]).0 < n && edges@[k].1 < n,
    ensures
        out.deep_view() == components_of(n, edges@),
        covers(out.deep_view(), n),
        once(out.deep_view()),
        joins_mutual(out.deep_view(), n, edges@),
{
    let mut g: petgraph::Graph<(), (), petgraph::Directed, usize> = petgraph::Graph::default();
    for _ in 0..n {
        g.add_node(());
    }
    for (a, b) in edges.iter() {
        g.add_edge(petgraph::graph::NodeIndex::new(*a), petgraph::graph::NodeIndex::new(*b), ());
    }
    petgraph::algo::tarjan_scc(&g).iter().map(|c| c.iter().map(|i| i.index()).collect()).collect()
}

/// The components with at least two nodes, in order.
pub open spec fn cycles_in(list: Seq<Seq<usize>>) -> Seq<Seq<usize>>
    decreases list.len(),
{
    if list.len() == 0 {
        Seq::empty()
    } else {
        let rest = cycles_in(list.drop_last());
        if list.last().len() >= 2 {
            rest.push(list.last())
        } else {
            rest
        }
    }
}

/// The size of the largest component.
pub open spec fn largest_in(list: Seq<Seq<usize>>) -> nat
    decreases list.len(),
{
    if list.len() == 0 {
        0
    } else {
        let rest = largest_in(list.drop_last());
        if list.last().len() > rest {
            list.last().len()
        } else {
            rest
        }
    }
}

fn copy_nodes(list: &Vec<usize>) -> (out: Vec<usize>)
    ensures
        out.deep_view() == list.deep_view(),
{
    let out = crate::tree::copy_indices(list);
    assert(out.deep_view() =~= list.deep_view());
    out
}

/// The components with at least two nodes, in order.
pub fn keep_cycles(list: &Vec<Vec<usize>>) -> (out: Vec<Vec<usize>>)
    ensures
        out.deep_view() == cycles_in(list.deep_view()),
{
    let ghost view = list.deep_view();
    let mut out: Vec<Vec<usize>> = Vec::new();
    let mut k: usize = 0;
    assert(view.take(0) =~= Seq::<Seq<usize>>::empty());
    assert(out.deep_view() =~= Seq::<Seq<usize>>::empty());
    while k < list.len()
        invariant
            k <= list.len(),
            view == list.deep_view(),
            out.deep_view() == cycles_in(view.take(k as int)),
        decreases list.len() - k,
    {
        assert(view.take(k + 1).drop_last() =~= view.take(k as int));
        assert(view[k as int] == list@[k as int].deep_view());
        assert(list@[k as int].len() == list@[k as int].deep_view().len());
        if list[k].len() >= 2 {
            put(&mut out, copy_nodes(&list[k]));
        }
        k = k + 1;
    }
    assert(view.take(view.len() as int) =~= view);
    out
}

/// The size of the largest component.
pub fn largest_of(list: &Vec<Vec<usize>>) -> (n: usize)
    ensures
        n == largest_in(list.deep_view()),
{
    let ghost view = list.deep_view();
    let mut n: usize = 0;
    let mut k: usize = 0;
    assert(view.take(0) =~= Seq::<Seq<usize>>::empty());
    while k < list.len()
        invariant
            k <= list.len(),
            view == list.deep_view(),
            n == largest_in(view.take(k as int)),
        decreases list.len() - k,
    {
        assert(view.take(k + 1).drop_last() =~= view.take(k as int));
        assert(view[k as int] == list@[k as int].deep_view());
        assert(list@[k as int].len() == list@[k as int].deep_view().len());
        if list[k].len() > n {
            n = list[k].len();
        }
        k = k + 1;
    }
    assert(view.take(view.len() as int) =~= view);
    n
}

proof fn cycles_keep_pairs(list: Seq<Seq<usize>>, a: usize, b: usize)
    requires
        a != b,
    ensures
        together(cycles_in(list), a, b) <==> together(list, a, b),
    decreases list.len(),
{
    if list.len() > 0 {
        let less = list.drop_last();
        cycles_keep_pairs(less, a, b);
        let rest = cycles_in(less);
        let all = cycles_in(list);
        if together(all, a, b) {
            let c = choose|c: int| 0 <= c < all.len() && (#[trigger] all[c]).contains(a) && all[c].contains(b);
            if c < rest.len() {
                assert(all[c] == rest[c]);
                assert(together(rest, a, b));
                let d = choose|d: int| 0 <= d < less.len() && (#[trigger] less[d]).contains(a) && less[d].contains(b);
                assert(list[d] == less[d]);
            } else {
                assert(list[list.len() - 1] == all[c]);
            }
            assert(together(list, a, b));
        }
        if together(list, a, b) {
            let c = choose|c: int| 0 <= c < list.len() && (#[trigger] list[c]).contains(a) && list[c].contains(b);
            if c < less.len() {
                assert(less[c] == list[c]);
                assert(together(less, a, b));
                let d = choose|d: int| 0 <= d < rest.len() && (#[trigger] rest[d]).contains(a) && rest[d].contains(b);
                assert(all[d] == rest[d]);
            } else {
                let i = choose|i: int| 0 <= i < list[c].len() && list[c][i] == a;
                let j = choose|j: int| 0 <= j < list[c].len() && list[c][j] == b;
                assert(i != j);
                assert(all[all.len() - 1] == list[c]);
            }
            assert(together(all, a, b));
        }
    }
}

/// The cycles of a graph: two nodes stand in one cycle exactly where each reaches the other.
pub fn cycles(n: usize, edges: &Vec<(usize, usize)>) -> (out: Vec<Vec<usize>>)
    requires
        forall|k: int| 0 <= k < edges@.len() ==> (#[trigger] edges@[k]).0 < n && edges@[k].1 < n,
    ensures
        out.deep_view() == cycles_in(components_of(n, edges@)),
        forall|c: int, k: int| 0 <= c < out@.len() && 0 <= k < out@[c]@.len() ==> #[trigger] out@[c]@[k] < n,
        forall|a: usize, b: usize|
            a < n && b < n && a != b ==> (#[trigger] together(out.deep_view(), a, b) <==> reaches(edges@, a, b) && reaches(
                edges@,
                b,
                a,
            )),
{
    let list = components(n, edges);
    let out = keep_cycles(&list);
    proof {
        let lv = list.deep_view();
        let ov = out.deep_view();
        assert forall|a: usize, b: usize| a < n && b < n && a != b implies (#[trigger] together(ov, a, b) <==> reaches(
            edges@,
            a,
            b,
        ) && reaches(edges@, b, a)) by {
            cycles_keep_pairs(lv, a, b);
            assert(together(lv, a, b) <==> reaches(edges@, a, b) && reaches(edges@, b, a));
        }
        cycles_are_components(lv);
        assert forall|c: int, k: int| 0 <= c < out@.len() && 0 <= k < out@[c]@.len() implies #[trigger] out@[c]@[k] < n by {
            assert(ov[c] == out@[c].deep_view());
            assert(ov[c][k] == out@[c]@[k]);
            let d = choose|d: int| 0 <= d < lv.len() && #[trigger] lv[d] == ov[c];
            assert(lv[d][k] < n);
        }
    }
    out
}

proof fn cycles_are_components(list: Seq<Seq<usize>>)
    ensures
        forall|c: int|
            0 <= c < cycles_in(list).len() ==> exists|d: int|
                0 <= d < list.len() && #[trigger] list[d] == #[trigger] cycles_in(list)[c],
    decreases list.len(),
{
    if list.len() > 0 {
        let less = list.drop_last();
        cycles_are_components(less);
        let rest = cycles_in(less);
        let all = cycles_in(list);
        assert forall|c: int| 0 <= c < all.len() implies exists|d: int|
            0 <= d < list.len() && #[trigger] list[d] == #[trigger] all[c] by {
            if c < rest.len() {
                assert(all[c] == rest[c]);
                let d = choose|d: int| 0 <= d < less.len() && #[trigger] less[d] == rest[c];
                assert(list[d] == less[d]);
            } else {
                assert(list[list.len() - 1] == all[c]);
            }
        }
    }
}

} // verus!
