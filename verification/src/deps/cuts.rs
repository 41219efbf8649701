//! What cutting an import of a cycle buys.

use vstd::prelude::*;

use crate::config::Deps;
use crate::deps::extract::EdgeKind;
use crate::deps::graph::{components, components_of, copy_edge, largest_in, largest_of, Edge, EdgeView};
use crate::order::{ordered, ordered_bounds, stable_order, Key, KeyView};
use crate::text::{index_from, list_has, position, put, Chars};
use crate::tree::ints;

verus! {

/// A single edge removed from a cycle and the largest cycle that leaves.
pub struct EdgeCut {
    pub edge: Edge,
    pub largest_after: usize,
}

/// An [`EdgeCut`] by its contents.
pub struct EdgeCutView {
    pub edge: EdgeView,
    pub largest_after: nat,
}

impl DeepView for EdgeCut {
    type V = EdgeCutView;

    open spec fn deep_view(&self) -> EdgeCutView {
        EdgeCutView { edge: self.edge.deep_view(), largest_after: self.largest_after as nat }
    }
}

/// Dropping every non-`mod` import one member makes inside the cycle.
pub struct HubCut {
    pub member: String,
    pub imports: usize,
    pub symbols: u32,
    /// One of the dropped imports is a wildcard, so `symbols` is a floor.
    pub glob: bool,
    pub largest_after: usize,
}

/// A [`HubCut`] by its contents.
pub struct HubCutView {
    pub member: Chars,
    pub imports: nat,
    pub symbols: u32,
    pub glob: bool,
    pub largest_after: nat,
}

impl DeepView for HubCut {
    type V = HubCutView;

    open spec fn deep_view(&self) -> HubCutView {
        HubCutView {
            member: self.member@,
            imports: self.imports as nat,
            symbols: self.symbols,
            glob: self.glob,
            largest_after: self.largest_after as nat,
        }
    }
}

/// Cut analysis of one file cycle.
pub struct Cuts {
    pub internal_edges: usize,
    pub mod_edges: usize,
    /// Edges left out of the search where type-only imports are ignored.
    pub type_only_edges: usize,
    /// Largest cycle among the members before any cut (smaller than the member count only when
    /// type-only edges were carrying part of it).
    pub base: usize,
    /// Cheapest single import whose removal leaves the smallest cycle (then fewest symbols).
    pub single: Option<EdgeCut>,
    /// Best hub cut, kept only when it leaves a smaller cycle than `single`.
    pub hub: Option<HubCut>,
    /// Greedy best-single-edge cuts that bring every cycle under the size that is cut; empty when
    /// that takes more edges than a cut set holds.
    pub cut_set: Vec<EdgeCut>,
    /// `single` still leaves most of the members in a cycle.
    pub no_single_break: bool,
}

/// A [`Cuts`] by its contents.
pub struct CutsView {
    pub internal_edges: nat,
    pub mod_edges: nat,
    pub type_only_edges: nat,
    pub base: nat,
    pub single: Option<EdgeCutView>,
    pub hub: Option<HubCutView>,
    pub cut_set: Seq<EdgeCutView>,
    pub no_single_break: bool,
}

impl DeepView for Cuts {
    type V = CutsView;

    open spec fn deep_view(&self) -> CutsView {
        CutsView {
            internal_edges: self.internal_edges as nat,
            mod_edges: self.mod_edges as nat,
            type_only_edges: self.type_only_edges as nat,
            base: self.base as nat,
            single: self.single.deep_view(),
            hub: self.hub.deep_view(),
            cut_set: self.cut_set.deep_view(),
            no_single_break: self.no_single_break,
        }
    }
}

/// One internal edge of a cycle, in local member indices.
#[derive(Clone, Copy)]
pub struct Link {
    pub from: usize,
    pub to: usize,
    /// It is no `mod` declaration.
    pub cuttable: bool,
    pub symbols: u32,
    pub glob: bool,
    /// Where the edge stands in the graph.
    pub at: usize,
}

// ---------- the links of a cycle ----------

/// Both ends of an edge are members.
pub open spec fn inside(e: EdgeView, members: Seq<Chars>) -> bool {
    members.contains(e.from) && members.contains(e.to)
}

/// Which of the first `n` edges are inside.
pub open spec fn inner_edges(edges: Seq<EdgeView>, members: Seq<Chars>, n: int) -> Seq<usize>
    decreases n,
{
    if n <= 0 {
        Seq::empty()
    } else {
        let rest = inner_edges(edges, members, n - 1);
        if inside(edges[n - 1], members) {
            rest.push((n - 1) as usize)
        } else {
            rest
        }
    }
}

/// A list in the order of its keys.
pub open spec fn arranged(list: Seq<usize>, keys: Seq<KeyView>) -> Seq<usize> {
    Seq::new(list.len(), |i: int| list[ordered(keys, list.len() as int)[i]])
}

/// A key of one text.
pub open spec fn by_text(s: Chars) -> KeyView {
    KeyView { a: 0, b: 0, s, c: 0 }
}

/// Keys by where an edge leads.
pub open spec fn keys_to(edges: Seq<EdgeView>, list: Seq<usize>) -> Seq<KeyView> {
    Seq::new(list.len(), |i: int| by_text(edges[list[i] as int].to))
}

/// Keys by where an edge starts.
pub open spec fn keys_from(edges: Seq<EdgeView>, list: Seq<usize>) -> Seq<KeyView> {
    Seq::new(list.len(), |i: int| by_text(edges[list[i] as int].from))
}

/// Keys by what an edge costs: a `mod` declaration the most.
pub open spec fn keys_cost(edges: Seq<EdgeView>, list: Seq<usize>) -> Seq<KeyView> {
    Seq::new(list.len(), |i: int| cost_key(edges[list[i] as int]))
}

/// A key by what an edge costs.
pub open spec fn cost_key(e: EdgeView) -> KeyView {
    KeyView {
        a: if e.kind == EdgeKind::Mod {
            1
        } else {
            0
        },
        b: if e.kind == EdgeKind::Mod {
            0
        } else {
            e.symbols as usize
        },
        s: Seq::empty(),
        c: 0,
    }
}

/// The internal edges of a cycle, by where they start and where they lead.
pub open spec fn internal(edges: Seq<EdgeView>, members: Seq<Chars>) -> Seq<usize> {
    let inner = inner_edges(edges, members, edges.len() as int);
    let by_to = arranged(inner, keys_to(edges, inner));
    arranged(by_to, keys_from(edges, by_to))
}

/// How many edges of a list are of a kind.
pub open spec fn of_kind(edges: Seq<EdgeView>, list: Seq<usize>, kind: EdgeKind) -> nat
    decreases list.len(),
{
    if list.len() == 0 {
        0
    } else {
        of_kind(edges, list.drop_last(), kind) + (if edges[list.last() as int].kind == kind {
            1nat
        } else {
            0
        })
    }
}

/// The edges a cut is searched among.
pub open spec fn searched(edges: Seq<EdgeView>, list: Seq<usize>, ignore: bool) -> Seq<usize>
    decreases list.len(),
{
    if list.len() == 0 {
        Seq::empty()
    } else {
        let rest = searched(edges, list.drop_last(), ignore);
        if ignore && edges[list.last() as int].kind == EdgeKind::TypeOnly {
            rest
        } else {
            rest.push(list.last())
        }
    }
}

/// The place of a member.
pub open spec fn place(members: Seq<Chars>, m: Chars) -> usize {
    match index_from(members, m, 0) {
        Some(i) => i as usize,
        None => 0,
    }
}

/// An edge in member indices.
pub open spec fn link_of(edges: Seq<EdgeView>, at: usize, members: Seq<Chars>) -> Link {
    let e = edges[at as int];
    Link {
        from: place(members, e.from),
        to: place(members, e.to),
        cuttable: e.kind != EdgeKind::Mod,
        symbols: e.symbols,
        glob: e.glob,
        at,
    }
}

/// The links of a cycle, the cheapest first.
pub open spec fn links_of(edges: Seq<EdgeView>, members: Seq<Chars>, ignore: bool) -> Seq<Link> {
    let list = searched(edges, internal(edges, members), ignore);
    let by_cost = arranged(list, keys_cost(edges, list));
    Seq::new(by_cost.len(), |i: int| link_of(edges, by_cost[i], members))
}

/// Every index stands for an edge between members.
spec fn in_graph(list: Seq<usize>, edges: Seq<EdgeView>, members: Seq<Chars>) -> bool {
    forall|k: int| 0 <= k < list.len() ==> (#[trigger] list[k]) < edges.len() && inside(edges[list[k] as int], members)
}

/// Links join members.
pub open spec fn within_cycle(links: Seq<Link>, n: usize, edges: Seq<EdgeView>) -> bool {
    forall|k: int|
        0 <= k < links.len() ==> (#[trigger] links[k]).from < n && links[k].to < n && links[k].at < edges.len()
}

fn arrange(list: &Vec<usize>, keys: &Vec<Key>) -> (out: Vec<usize>)
    requires
        list.len() == keys.len(),
    ensures
        out@ == arranged(list@, keys.deep_view()),
        forall|k: int| 0 <= k < out@.len() ==> list@.contains(#[trigger] out@[k]),
{
    let order = stable_order(keys);
    let mut out: Vec<usize> = Vec::new();
    let mut k: usize = 0;
    assert(keys.len() == keys.deep_view().len());
    while k < order.len()
        invariant
            k <= order.len() == list.len(),
            out.len() == k,
            ints(order@) == ordered(keys.deep_view(), list@.len() as int),
            forall|j: int| 0 <= j < order.len() ==> #[trigger] order@[j] < list.len(),
            forall|j: int| 0 <= j < k ==> #[trigger] out@[j] == arranged(list@, keys.deep_view())[j],
            forall|j: int| 0 <= j < k ==> list@.contains(#[trigger] out@[j]),
        decreases order.len() - k,
    {
        let o: usize = order[k];
        assert(ints(order@)[k as int] == o as int);
        assert(list@[o as int] == arranged(list@, keys.deep_view())[k as int]);
        out.push(list[o]);
        k = k + 1;
    }
    assert(out@ =~= arranged(list@, keys.deep_view()));
    out
}

fn find_inner(edges: &Vec<Edge>, members: &Vec<String>) -> (out: Vec<usize>)
    ensures
        out@ == inner_edges(edges.deep_view(), members.deep_view(), edges.deep_view().len() as int),
        in_graph(out@, edges.deep_view(), members.deep_view()),
{
    let ghost view = edges.deep_view();
    let ghost mv = members.deep_view();
    let mut out: Vec<usize> = Vec::new();
    let mut k: usize = 0;
    while k < edges.len()
        invariant
            k <= edges.len(),
            view == edges.deep_view(),
            mv == members.deep_view(),
            out@ == inner_edges(view, mv, k as int),
            in_graph(out@, view, mv),
        decreases edges.len() - k,
    {
        assert(view[k as int] == edges@[k as int].deep_view());
        if list_has(members, edges[k].from.as_str()) && list_has(members, edges[k].to.as_str()) {
            out.push(k);
        }
        k = k + 1;
    }
    out
}

/// One key of an edge.
#[derive(Clone, Copy)]
enum By {
    To,
    From,
    Cost,
}

spec fn key_by(e: EdgeView, by: By) -> KeyView {
    match by {
        By::To => by_text(e.to),
        By::From => by_text(e.from),
        By::Cost => cost_key(e),
    }
}

fn arrange_by(list: &Vec<usize>, edges: &Vec<Edge>, members: &Vec<String>, by: By) -> (out: Vec<usize>)
    requires
        in_graph(list@, edges.deep_view(), members.deep_view()),
    ensures
        out@ == arranged(
            list@,
            Seq::new(list@.len(), |i: int| key_by(edges.deep_view()[list@[i] as int], by)),
        ),
        in_graph(out@, edges.deep_view(), members.deep_view()),
{
    let ghost view = edges.deep_view();
    let ghost mv = members.deep_view();
    let mut keys: Vec<Key> = Vec::new();
    let mut k: usize = 0;
    while k < list.len()
        invariant
            k <= list.len(),
            keys.len() == k,
            view == edges.deep_view(),
            mv == members.deep_view(),
            in_graph(list@, view, mv),
            forall|j: int| 0 <= j < k ==> (#[trigger] keys@[j]).deep_view() == key_by(view[list@[j] as int], by),
        decreases list.len() - k,
    {
        let at: usize = list[k];
        assert(list@[k as int] < view.len());
        let e = &edges[at];
        assert(view[at as int] == e.deep_view());
        let none = String::new();
        assert(none@ =~= Seq::<char>::empty());
        let key = match by {
            By::To => Key { a: 0, b: 0, s: e.to.as_str().to_owned(), c: 0 },
            By::From => Key { a: 0, b: 0, s: e.from.as_str().to_owned(), c: 0 },
            By::Cost => if e.kind == EdgeKind::Mod {
                Key { a: 1, b: 0, s: none, c: 0 }
            } else {
                Key { a: 0, b: e.symbols as usize, s: none, c: 0 }
            },
        };
        keys.push(key);
        k = k + 1;
    }
    assert(keys.deep_view() =~= Seq::new(list@.len(), |i: int| key_by(view[list@[i] as int], by)));
    let out = arrange(list, &keys);
    assert forall|j: int| 0 <= j < out@.len() implies (#[trigger] out@[j]) < view.len() && inside(view[out@[j] as int], mv) by {
        assert(list@.contains(out@[j]));
        let i = choose|i: int| 0 <= i < list@.len() && list@[i] == out@[j];
        assert(list@[i] < view.len());
    }
    out
}

fn find_internal(edges: &Vec<Edge>, members: &Vec<String>) -> (out: Vec<usize>)
    ensures
        out@ == internal(edges.deep_view(), members.deep_view()),
        in_graph(out@, edges.deep_view(), members.deep_view()),
{
    let ghost view = edges.deep_view();
    let inner = find_inner(edges, members);
    let by_to = arrange_by(&inner, edges, members, By::To);
    assert(keys_to(view, inner@) =~= Seq::new(inner@.len(), |i: int| key_by(view[inner@[i] as int], By::To)));
    let out = arrange_by(&by_to, edges, members, By::From);
    assert(keys_from(view, by_to@) =~= Seq::new(by_to@.len(), |i: int| key_by(view[by_to@[i] as int], By::From)));
    out
}

fn count_kind(edges: &Vec<Edge>, list: &Vec<usize>, kind: EdgeKind, Ghost(members): Ghost<Seq<Chars>>) -> (n: usize)
    requires
        in_graph(list@, edges.deep_view(), members),
    ensures
        n == of_kind(edges.deep_view(), list@, kind),
{
    let ghost view = edges.deep_view();
    let mut n: usize = 0;
    let mut k: usize = 0;
    assert(list@.take(0) =~= Seq::<usize>::empty());
    while k < list.len()
        invariant
            k <= list.len(),
            n <= k,
            view == edges.deep_view(),
            in_graph(list@, view, members),
            n == of_kind(view, list@.take(k as int), kind),
        decreases list.len() - k,
    {
        assert(list@.take(k + 1).drop_last() =~= list@.take(k as int));
        let at: usize = list[k];
        assert(list@[k as int] < view.len());
        assert(view[at as int] == edges@[at as int].deep_view());
        if edges[at].kind == kind {
            n = n + 1;
        }
        k = k + 1;
    }
    assert(list@.take(list@.len() as int) =~= list@);
    n
}

fn search_among(edges: &Vec<Edge>, list: &Vec<usize>, ignore: bool, Ghost(members): Ghost<Seq<Chars>>) -> (out: Vec<usize>)
    requires
        in_graph(list@, edges.deep_view(), members),
    ensures
        out@ == searched(edges.deep_view(), list@, ignore),
        in_graph(out@, edges.deep_view(), members),
{
    let ghost view = edges.deep_view();
    let mut out: Vec<usize> = Vec::new();
    let mut k: usize = 0;
    assert(list@.take(0) =~= Seq::<usize>::empty());
    while k < list.len()
        invariant
            k <= list.len(),
            view == edges.deep_view(),
            in_graph(list@, view, members),
            in_graph(out@, view, members),
            out@ == searched(view, list@.take(k as int), ignore),
        decreases list.len() - k,
    {
        assert(list@.take(k + 1).drop_last() =~= list@.take(k as int));
        let at: usize = list[k];
        assert(list@[k as int] < view.len());
        assert(view[at as int] == edges@[at as int].deep_view());
        if !(ignore && edges[at].kind == EdgeKind::TypeOnly) {
            out.push(at);
        }
        k = k + 1;
    }
    assert(list@.take(list@.len() as int) =~= list@);
    out
}

proof fn index_is_below(list: Seq<Chars>, s: Chars, from: int)
    requires
        0 <= from <= list.len(),
        exists|k: int| from <= k < list.len() && list[k] == s,
    ensures
        index_from(list, s, from) matches Some(i) && from <= i < list.len() && list[i] == s,
    decreases list.len() - from,
{
    if from < list.len() && list[from] != s {
        index_is_below(list, s, from + 1);
    }
}

fn find_place(members: &Vec<String>, m: &str) -> (i: usize)
    requires
        members.deep_view().contains(m@),
    ensures
        i == place(members.deep_view(), m@),
        i < members.len(),
{
    proof {
        let k = choose|k: int| 0 <= k < members.deep_view().len() && members.deep_view()[k] == m@;
        assert(0 <= k < members.deep_view().len() && members.deep_view()[k] == m@);
        index_is_below(members.deep_view(), m@, 0);
    }
    match position(members, m) {
        Some(i) => i,
        None => 0,
    }
}

fn find_links(edges: &Vec<Edge>, members: &Vec<String>, list: &Vec<usize>) -> (out: Vec<Link>)
    requires
        in_graph(list@, edges.deep_view(), members.deep_view()),
    ensures
        ({
            let by_cost = arranged(list@, keys_cost(edges.deep_view(), list@));
            out@ == Seq::new(by_cost.len(), |i: int| link_of(edges.deep_view(), by_cost[i], members.deep_view()))
        }),
        within_cycle(out@, members.len(), edges.deep_view()),
{
    let ghost view = edges.deep_view();
    let ghost mv = members.deep_view();
    let by_cost = arrange_by(list, edges, members, By::Cost);
    assert(keys_cost(view, list@) =~= Seq::new(list@.len(), |i: int| key_by(view[list@[i] as int], By::Cost)));
    let mut out: Vec<Link> = Vec::new();
    let mut k: usize = 0;
    while k < by_cost.len()
        invariant
            k <= by_cost.len(),
            out.len() == k,
            view == edges.deep_view(),
            mv == members.deep_view(),
            in_graph(by_cost@, view, mv),
            within_cycle(out@, members.len(), view),
            forall|j: int| 0 <= j < k ==> #[trigger] out@[j] == link_of(view, by_cost@[j], mv),
        decreases by_cost.len() - k,
    {
        let at: usize = by_cost[k];
        assert(by_cost@[k as int] < view.len());
        let e = &edges[at];
        assert(view[at as int] == e.deep_view());
        out.push(
            Link {
                from: find_place(members, e.from.as_str()),
                to: find_place(members, e.to.as_str()),
                cuttable: e.kind != EdgeKind::Mod,
                symbols: e.symbols,
                glob: e.glob,
                at,
            },
        );
        k = k + 1;
    }
    assert(out@ =~= Seq::new(by_cost@.len(), |i: int| link_of(view, by_cost@[i], mv)));
    out
}

// ---------- what is left ----------

/// The links that are not removed, as pairs of nodes.
pub open spec fn pairs_left(links: Seq<Link>, removed: Seq<bool>, n: int) -> Seq<(usize, usize)>
    decreases n,
{
    if n <= 0 {
        Seq::empty()
    } else {
        let rest = pairs_left(links, removed, n - 1);
        if removed[n - 1] {
            rest
        } else {
            rest.push((links[n - 1].from, links[n - 1].to))
        }
    }
}

/// The largest component among `n` members once the removed links are gone.
pub open spec fn left_after(n: usize, links: Seq<Link>, removed: Seq<bool>) -> nat {
    largest_in(components_of(n, pairs_left(links, removed, links.len() as int)))
}

/// The largest component among `n` members once the removed links are gone.
pub fn largest_after(n: usize, links: &Vec<Link>, removed: &Vec<bool>) -> (r: usize)
    requires
        removed.len() == links.len(),
        forall|k: int| 0 <= k < links@.len() ==> (#[trigger] links@[k]).from < n && links@[k].to < n,
    ensures
        r == left_after(n, links@, removed@),
{
    let mut pairs: Vec<(usize, usize)> = Vec::new();
    let mut k: usize = 0;
    while k < links.len()
        invariant
            k <= links.len() == removed.len(),
            forall|j: int| 0 <= j < links@.len() ==> (#[trigger] links@[j]).from < n && links@[j].to < n,
            pairs@ == pairs_left(links@, removed@, k as int),
            forall|j: int| 0 <= j < pairs@.len() ==> (#[trigger] pairs@[j]).0 < n && pairs@[j].1 < n,
        decreases links.len() - k,
    {
        if !removed[k] {
            pairs.push((links[k].from, links[k].to));
        }
        k = k + 1;
    }
    let list = components(n, &pairs);
    largest_of(&list)
}

/// No link is removed.
pub open spec fn nothing_removed(links: Seq<Link>) -> Seq<bool> {
    Seq::new(links.len(), |i: int| false)
}

/// The best cut so far: what is left after it, what it costs, and which it is.
pub type Best = Option<(nat, nat, int)>;

/// A cut that leaves less, or as much for less, is better.
pub open spec fn better(after: nat, cost: nat, best: Best) -> bool {
    match best {
        None => true,
        Some((a, c, _)) => after < a || (after == a && cost < c),
    }
}

/// The best single cut from link `k` on, with `left` more links to try.
pub open spec fn best_from(n: usize, links: Seq<Link>, removed: Seq<bool>, k: int, left: nat, best: Best) -> Best
    decreases links.len() - k,
{
    if k < 0 || k >= links.len() || left == 0 {
        best
    } else if removed[k] || !links[k].cuttable {
        best_from(n, links, removed, k + 1, left, best)
    } else {
        let after = left_after(n, links, removed.update(k, true));
        let cost = links[k].symbols as nat;
        best_from(
            n,
            links,
            removed,
            k + 1,
            (left - 1) as nat,
            if better(after, cost, best) {
                Some((after, cost, k))
            } else {
                best
            },
        )
    }
}

/// The best single cut on top of `removed`, and what is left after it.
pub open spec fn best_cut(n: usize, links: Seq<Link>, removed: Seq<bool>, tried: nat) -> Option<(int, nat)> {
    match best_from(n, links, removed, 0, tried, None) {
        Some((after, _, i)) => Some((i, after)),
        None => None,
    }
}

/// A cut as machine integers hold it.
pub open spec fn cut_view(r: Option<(usize, usize)>) -> Option<(int, nat)> {
    match r {
        Some((i, after)) => Some((i as int, after as nat)),
        None => None,
    }
}

/// Best single cuttable link on top of `removed`: smallest largest-after, then cheapest, then link
/// order (cheapest first, so ties are stable). Tries at most `tried` links.
pub fn best_single(n: usize, links: &Vec<Link>, removed: &Vec<bool>, tried: usize) -> (r: Option<(usize, usize)>)
    requires
        removed.len() == links.len(),
        forall|k: int| 0 <= k < links@.len() ==> (#[trigger] links@[k]).from < n && links@[k].to < n,
    ensures
        cut_view(r) == best_cut(n, links@, removed@, tried as nat),
        r matches Some((i, _)) ==> i < links.len() && links@[i as int].cuttable && !removed@[i as int],
{
    let mut scratch: Vec<bool> = Vec::new();
    let mut k: usize = 0;
    while k < removed.len()
        invariant
            k <= removed.len(),
            scratch@ == removed@.take(k as int),
        decreases removed.len() - k,
    {
        scratch.push(removed[k]);
        assert(scratch@ =~= removed@.take(k + 1));
        k = k + 1;
    }
    assert(scratch@ =~= removed@);
    let mut best: Option<(usize, u32, usize)> = None;
    let ghost mut bv: Best = None;
    let mut left: usize = tried;
    k = 0;
    while k < links.len() && left > 0
        invariant
            k <= links.len() == removed.len(),
            scratch@ == removed@,
            forall|j: int| 0 <= j < links@.len() ==> (#[trigger] links@[j]).from < n && links@[j].to < n,
            match best {
                Some((a, c, i)) => bv == Some((a as nat, c as nat, i as int)) && i < k && links@[i as int].cuttable && !removed@[i as int],
                None => bv is None,
            },
            best_from(n, links@, removed@, 0, tried as nat, None) == best_from(
                n,
                links@,
                removed@,
                k as int,
                left as nat,
                bv,
            ),
        decreases links.len() - k,
    {
        if !removed[k] && links[k].cuttable {
            scratch.set(k, true);
            let after = largest_after(n, links, &scratch);
            scratch.set(k, false);
            assert(scratch@ =~= removed@);
            let cost: u32 = links[k].symbols;
            let take = match best {
                None => true,
                Some((a, c, _)) => after < a || (after == a && cost < c),
            };
            if take {
                best = Some((after, cost, k));
                proof {
                    bv = Some((after as nat, cost as nat, k as int));
                }
            }
            left = left - 1;
        }
        k = k + 1;
    }
    match best {
        Some((after, _, i)) => Some((i, after)),
        None => None,
    }
}

// ---------- the hub ----------

/// The links a member imports by.
pub open spec fn hub_removed(links: Seq<Link>, m: int) -> Seq<bool> {
    Seq::new(links.len(), |i: int| links[i].from == m && links[i].cuttable)
}

/// How many of the first `n` links a member imports by.
pub open spec fn hub_imports(links: Seq<Link>, m: int, n: int) -> nat
    decreases n,
{
    if n <= 0 {
        0
    } else {
        hub_imports(links, m, n - 1) + (if links[n - 1].from == m && links[n - 1].cuttable {
            1nat
        } else {
            0
        })
    }
}

/// How many symbols the first `n` links bring a member.
pub open spec fn hub_cost(links: Seq<Link>, m: int, n: int) -> nat
    decreases n,
{
    if n <= 0 {
        0
    } else {
        hub_cost(links, m, n - 1) + (if links[n - 1].from == m && links[n - 1].cuttable {
            links[n - 1].symbols as nat
        } else {
            0
        })
    }
}

/// One of the first `n` links that a member imports by is a wildcard.
pub open spec fn hub_glob(links: Seq<Link>, m: int, n: int) -> bool
    decreases n,
{
    if n <= 0 {
        false
    } else {
        hub_glob(links, m, n - 1) || (links[n - 1].from == m && links[n - 1].cuttable && links[n - 1].glob)
    }
}

/// The member from `m` on whose imports are best dropped.
pub open spec fn hub_from(n: usize, links: Seq<Link>, m: int, best: Best) -> Best
    decreases n - m,
{
    if m < 0 || m >= n {
        best
    } else {
        let after = left_after(n, links, hub_removed(links, m));
        let cost = hub_cost(links, m, links.len() as int);
        hub_from(
            n,
            links,
            m + 1,
            if hub_imports(links, m, links.len() as int) > 0 && better(after, cost, best) {
                Some((after, cost, m))
            } else {
                best
            },
        )
    }
}

/// The hub cut of a member.
pub open spec fn hub_of(members: Seq<Chars>, links: Seq<Link>, best: Best) -> Option<HubCutView> {
    match best {
        Some((after, cost, m)) => Some(
            HubCutView {
                member: members[m],
                imports: hub_imports(links, m, links.len() as int),
                symbols: (cost % 0x1_0000_0000) as u32,
                glob: hub_glob(links, m, links.len() as int),
                largest_after: after,
            },
        ),
        None => None,
    }
}

fn drop_imports(n: usize, links: &Vec<Link>, m: usize) -> (r: (usize, u128, bool, usize))
    requires
        forall|k: int| 0 <= k < links@.len() ==> (#[trigger] links@[k]).from < n && links@[k].to < n,
    ensures
        r.0 == hub_imports(links@, m as int, links@.len() as int),
        r.1 == hub_cost(links@, m as int, links@.len() as int),
        r.2 == hub_glob(links@, m as int, links@.len() as int),
        r.3 == left_after(n, links@, hub_removed(links@, m as int)),
{
    let mut removed: Vec<bool> = Vec::new();
    let mut imports: usize = 0;
    let mut cost: u128 = 0;
    let mut glob: bool = false;
    let mut k: usize = 0;
    while k < links.len()
        invariant
            k <= links.len(),
            removed.len() == k,
            imports <= k,
            cost <= k * 0x1_0000_0000,
            imports == hub_imports(links@, m as int, k as int),
            cost == hub_cost(links@, m as int, k as int),
            glob == hub_glob(links@, m as int, k as int),
            forall|j: int| 0 <= j < k ==> #[trigger] removed@[j] == hub_removed(links@, m as int)[j],
        decreases links.len() - k,
    {
        let l = links[k];
        let out = l.from == m && l.cuttable;
        removed.push(out);
        if out {
            imports = imports + 1;
            assert(k * 0x1_0000_0000 + 0x1_0000_0000 <= u128::MAX) by (nonlinear_arith)
                requires
                    k < usize::MAX,
                    usize::MAX <= 0xffff_ffff_ffff_ffff,
            ;
            cost = cost + l.symbols as u128;
            if l.glob {
                glob = true;
            }
        }
        k = k + 1;
    }
    assert(removed@ =~= hub_removed(links@, m as int));
    (imports, cost, glob, largest_after(n, links, &removed))
}

fn best_hub(members: &Vec<String>, links: &Vec<Link>) -> (r: Option<HubCut>)
    requires
        forall|k: int| 0 <= k < links@.len() ==> (#[trigger] links@[k]).from < members.len() && links@[k].to < members.len(),
    ensures
        r.deep_view() == hub_of(members.deep_view(), links@, hub_from(members.len(), links@, 0, None)),
{
    let n: usize = members.len();
    let ghost mv = members.deep_view();
    let mut best: Option<(usize, u128)> = None;
    let mut hub: Option<HubCut> = None;
    let ghost mut bv: Best = None;
    let mut m: usize = 0;
    while m < n
        invariant
            m <= n == members.len(),
            mv == members.deep_view(),
            forall|k: int| 0 <= k < links@.len() ==> (#[trigger] links@[k]).from < n && links@[k].to < n,
            match (best, bv) {
                (Some((a, c)), Some((x, y, _))) => a == x && c == y,
                (None, None) => true,
                _ => false,
            },
            hub.deep_view() == hub_of(mv, links@, bv),
            hub_from(n, links@, 0, None) == hub_from(n, links@, m as int, bv),
        decreases n - m,
    {
        let (imports, cost, glob, after) = drop_imports(n, links, m);
        let take = imports > 0 && (match best {
            None => true,
            Some((a, c)) => after < a || (after == a && cost < c),
        });
        if take {
            best = Some((after, cost));
            proof {
                bv = Some((after as nat, cost as nat, m as int));
            }
            assert(mv[m as int] == members@[m as int]@);
            let short: u128 = cost % 0x1_0000_0000;
            hub = Some(
                HubCut {
                    member: members[m].as_str().to_owned(),
                    imports,
                    symbols: short as u32,
                    glob,
                    largest_after: after,
                },
            );
        }
        m = m + 1;
    }
    hub
}

// ---------- the cut set ----------

/// Greedy: keep taking the best single link on the residual until every cycle is small or the set
/// is full.
pub open spec fn greedy_from(
    n: usize,
    links: Seq<Link>,
    removed: Seq<bool>,
    set: Seq<(int, nat)>,
    dissolved: bool,
    cfg: Deps,
) -> (Seq<(int, nat)>, bool)
    decreases cfg.max_cut_set - set.len(),
{
    if dissolved || set.len() >= cfg.max_cut_set {
        (set, dissolved)
    } else {
        match best_cut(n, links, removed, cfg.max_edges_tried as nat) {
            None => (set, dissolved),
            Some((i, after)) => greedy_from(
                n,
                links,
                removed.update(i, true),
                set.push((i, after)),
                after < cfg.min_cycle_size_to_cut,
                cfg,
            ),
        }
    }
}

/// The cut at a link.
pub open spec fn cut_at(edges: Seq<EdgeView>, links: Seq<Link>, i: int, after: nat) -> EdgeCutView {
    EdgeCutView { edge: edges[links[i].at as int], largest_after: after }
}

/// The cuts of a set.
pub open spec fn cuts_at(edges: Seq<EdgeView>, links: Seq<Link>, set: Seq<(int, nat)>) -> Seq<EdgeCutView> {
    Seq::new(set.len(), |k: int| cut_at(edges, links, set[k].0, set[k].1))
}

/// The cut set of a cycle; empty where it does not dissolve the cycle.
pub open spec fn cut_set_of(n: usize, edges: Seq<EdgeView>, links: Seq<Link>, cfg: Deps) -> Seq<EdgeCutView> {
    let none = nothing_removed(links);
    let (set, dissolved) = greedy_from(
        n,
        links,
        none,
        Seq::empty(),
        left_after(n, links, none) < cfg.min_cycle_size_to_cut,
        cfg,
    );
    if dissolved {
        cuts_at(edges, links, set)
    } else {
        Seq::empty()
    }
}

fn make_cut(edges: &Vec<Edge>, links: &Vec<Link>, i: usize, after: usize) -> (r: EdgeCut)
    requires
        i < links.len(),
        links@[i as int].at < edges.len(),
    ensures
        r.deep_view() == cut_at(edges.deep_view(), links@, i as int, after as nat),
{
    let at: usize = links[i].at;
    assert(edges.deep_view()[at as int] == edges@[at as int].deep_view());
    EdgeCut { edge: copy_edge(&edges[at]), largest_after: after }
}

fn cut_greedily(n: usize, edges: &Vec<Edge>, links: &Vec<Link>, none: Vec<bool>, base: usize, cfg: &Deps) -> (out: Vec<
    EdgeCut,
>)
    requires
        within_cycle(links@, n, edges.deep_view()),
        none@ == nothing_removed(links@),
        base == left_after(n, links@, none@),
    ensures
        out.deep_view() == cut_set_of(n, edges.deep_view(), links@, *cfg),
{
    let ghost view = edges.deep_view();
    assert(view.len() == edges.len());
    let ghost start = none@;
    let mut removed: Vec<bool> = none;
    let mut set: Vec<EdgeCut> = Vec::new();
    let ghost mut sv: Seq<(int, nat)> = Seq::empty();
    let mut dissolved: bool = base < cfg.min_cycle_size_to_cut;
    let ghost want = greedy_from(n, links@, start, Seq::empty(), base < cfg.min_cycle_size_to_cut, *cfg);
    let mut stuck: bool = false;
    assert(set.deep_view() =~= cuts_at(view, links@, sv));
    while !dissolved && !stuck && set.len() < cfg.max_cut_set
        invariant
            view == edges.deep_view(),
            view.len() == edges.len(),
            within_cycle(links@, n, view),
            removed.len() == links.len(),
            set.len() == sv.len(),
            set.len() <= cfg.max_cut_set,
            set.deep_view() == cuts_at(view, links@, sv),
            stuck ==> want == (sv, dissolved),
            !stuck ==> want == greedy_from(n, links@, removed@, sv, dissolved, *cfg),
        decreases cfg.max_cut_set - set.len(), if stuck { 0int } else { 1int },
    {
        match best_single(n, links, &removed, cfg.max_edges_tried) {
            None => {
                stuck = true;
            },
            Some((i, after)) => {
                assert(links@[i as int].at < view.len());
                removed.set(i, true);
                put(&mut set, make_cut(edges, links, i, after));
                proof {
                    let was = sv;
                    sv = sv.push((i as int, after as nat));
                    assert(cuts_at(view, links@, sv) =~= cuts_at(view, links@, was).push(
                        cut_at(view, links@, i as int, after as nat),
                    ));
                }
                dissolved = after < cfg.min_cycle_size_to_cut;
            },
        }
    }
    if dissolved {
        set
    } else {
        let none: Vec<EdgeCut> = Vec::new();
        assert(none.deep_view() =~= Seq::<EdgeCutView>::empty());
        none
    }
}

// ---------- a cycle ----------

/// The cheapest single cut of a cycle.
pub open spec fn single_of(n: usize, edges: Seq<EdgeView>, links: Seq<Link>, cfg: Deps) -> Option<EdgeCutView> {
    if left_after(n, links, nothing_removed(links)) >= 2 {
        match best_cut(n, links, nothing_removed(links), cfg.max_edges_tried as nat) {
            Some((i, after)) => Some(cut_at(edges, links, i, after)),
            None => None,
        }
    } else {
        None
    }
}

/// The hub cut of a cycle, where it leaves less than the single cut.
pub open spec fn hub_beating(
    members: Seq<Chars>,
    n: usize,
    links: Seq<Link>,
    single: Option<EdgeCutView>,
    cfg: Deps,
) -> Option<HubCutView> {
    if cfg.report_hub_cut && left_after(n, links, nothing_removed(links)) >= 2 {
        let hub = hub_of(members, links, hub_from(n, links, 0, None));
        match (hub, single) {
            (Some(h), Some(s)) => if h.largest_after >= s.largest_after {
                None
            } else {
                hub
            },
            _ => hub,
        }
    } else {
        None
    }
}

/// The cut analysis of a cycle; `floor` is the size from which what the single cut leaves is no
/// break.
pub open spec fn cuts_of(members: Seq<Chars>, n: usize, edges: Seq<EdgeView>, cfg: Deps, floor: usize) -> CutsView {
    let all = internal(edges, members);
    let links = links_of(edges, members, cfg.ignore_type_only_imports);
    let base = left_after(n, links, nothing_removed(links));
    let single = single_of(n, edges, links, cfg);
    CutsView {
        internal_edges: all.len(),
        mod_edges: of_kind(edges, all, EdgeKind::Mod),
        type_only_edges: of_kind(edges, all, EdgeKind::TypeOnly),
        base,
        single,
        hub: hub_beating(members, n, links, single, cfg),
        cut_set: cut_set_of(n, edges, links, cfg),
        no_single_break: base >= 2 && (match single {
            Some(s) => s.largest_after >= floor,
            None => true,
        }),
    }
}

/// The cut analysis of a cycle.
pub fn cuts_for(members: &Vec<String>, edges: &Vec<Edge>, cfg: &Deps, floor: usize) -> (r: Cuts)
    ensures
        r.deep_view() == cuts_of(members.deep_view(), members.len(), edges.deep_view(), *cfg, floor),
{
    let n: usize = members.len();
    let ghost mv = members.deep_view();
    let ghost view = edges.deep_view();
    assert(view.len() == edges.len());
    let all = find_internal(edges, members);
    let mod_edges = count_kind(edges, &all, EdgeKind::Mod, Ghost(mv));
    let type_only_edges = count_kind(edges, &all, EdgeKind::TypeOnly, Ghost(mv));
    let list = search_among(edges, &all, cfg.ignore_type_only_imports, Ghost(mv));
    let links = find_links(edges, members, &list);
    assert(links@ == links_of(view, mv, cfg.ignore_type_only_imports));
    let mut none: Vec<bool> = Vec::new();
    let mut k: usize = 0;
    while k < links.len()
        invariant
            k <= links.len(),
            none.len() == k,
            forall|j: int| 0 <= j < k ==> !#[trigger] none@[j],
        decreases links.len() - k,
    {
        none.push(false);
        k = k + 1;
    }
    assert(none@ =~= nothing_removed(links@));
    let base = largest_after(n, &links, &none);
    let single = if base >= 2 {
        match best_single(n, &links, &none, cfg.max_edges_tried) {
            Some((i, after)) => {
                assert(links@[i as int].at < view.len());
                Some(make_cut(edges, &links, i, after))
            },
            None => None,
        }
    } else {
        None
    };
    let hub = if cfg.report_hub_cut && base >= 2 {
        let hub = best_hub(members, &links);
        let worse = match (&hub, &single) {
            (Some(h), Some(s)) => h.largest_after >= s.largest_after,
            _ => false,
        };
        if worse {
            None
        } else {
            hub
        }
    } else {
        None
    };
    let cut_set = cut_greedily(n, edges, &links, none, base, cfg);
    let no_single_break = base >= 2 && (match &single {
        Some(s) => s.largest_after >= floor,
        None => true,
    });
    Cuts {
        internal_edges: all.len(),
        mod_edges,
        type_only_edges,
        base,
        single,
        hub,
        cut_set,
        no_single_break,
    }
}

/// An analysis with the same contents.
pub fn copy_cuts(c: &Cuts) -> (r: Cuts)
    ensures
        r.deep_view() == c.deep_view(),
{
    let mut cut_set: Vec<EdgeCut> = Vec::new();
    let mut k: usize = 0;
    while k < c.cut_set.len()
        invariant
            k <= c.cut_set.len(),
            cut_set.len() == k,
            forall|j: int| 0 <= j < k ==> (#[trigger] cut_set@[j]).deep_view() == c.cut_set@[j].deep_view(),
        decreases c.cut_set.len() - k,
    {
        let e = &c.cut_set[k];
        cut_set.push(EdgeCut { edge: copy_edge(&e.edge), largest_after: e.largest_after });
        k = k + 1;
    }
    assert(cut_set.deep_view() =~= c.cut_set.deep_view());
    Cuts {
        internal_edges: c.internal_edges,
        mod_edges: c.mod_edges,
        type_only_edges: c.type_only_edges,
        base: c.base,
        single: match &c.single {
            Some(e) => Some(EdgeCut { edge: copy_edge(&e.edge), largest_after: e.largest_after }),
            None => None,
        },
        hub: match &c.hub {
            Some(h) => Some(
                HubCut {
                    member: h.member.as_str().to_owned(),
                    imports: h.imports,
                    symbols: h.symbols,
                    glob: h.glob,
                    largest_after: h.largest_after,
                },
            ),
            None => None,
        },
        cut_set,
        no_single_break: c.no_single_break,
    }
}

// ---------- laws ----------

/// A cut is at a link that can be cut.
spec fn at_cuttable(links: Seq<Link>, i: int) -> bool {
    0 <= i < links.len() && links[i].cuttable
}

proof fn best_is_cuttable(n: usize, links: Seq<Link>, removed: Seq<bool>, k: int, left: nat, best: Best)
    requires
        0 <= k,
        best matches Some((_, _, i)) ==> at_cuttable(links, i),
    ensures
        best_from(n, links, removed, k, left, best) matches Some((_, _, i)) ==> at_cuttable(links, i),
    decreases links.len() - k,
{
    if k < links.len() && left > 0 {
        if removed[k] || !links[k].cuttable {
            best_is_cuttable(n, links, removed, k + 1, left, best);
        } else {
            let after = left_after(n, links, removed.update(k, true));
            let cost = links[k].symbols as nat;
            let next = if better(after, cost, best) {
                Some((after, cost, k))
            } else {
                best
            };
            best_is_cuttable(n, links, removed, k + 1, (left - 1) as nat, next);
        }
    }
}

proof fn best_beats_rest(n: usize, links: Seq<Link>, removed: Seq<bool>, k: int, left: nat, best: Best)
    requires
        0 <= k,
        links.len() - k <= left,
    ensures
        ({
            let r = best_from(n, links, removed, k, left, best);
            &&& forall|j: int|
                k <= j < links.len() && !removed[j] && (#[trigger] links[j]).cuttable ==> !better(
                    left_after(n, links, removed.update(j, true)),
                    links[j].symbols as nat,
                    r,
                )
            &&& best matches Some((a, c, _)) ==> !better(a, c, r)
        }),
    decreases links.len() - k,
{
    if k < links.len() && left > 0 {
        if removed[k] || !links[k].cuttable {
            best_beats_rest(n, links, removed, k + 1, left, best);
        } else {
            let after = left_after(n, links, removed.update(k, true));
            let cost = links[k].symbols as nat;
            let next = if better(after, cost, best) {
                Some((after, cost, k))
            } else {
                best
            };
            best_beats_rest(n, links, removed, k + 1, (left - 1) as nat, next);
        }
    }
}

/// Where every link is tried, no other cut leaves less than the best one, nor as much for less.
pub proof fn the_best_cut_is_best(n: usize, links: Seq<Link>, removed: Seq<bool>, tried: nat, j: int)
    requires
        links.len() <= tried,
        0 <= j < links.len(),
        !removed[j],
        links[j].cuttable,
    ensures
        best_from(n, links, removed, 0, tried, None) matches Some((after, cost, _)) && {
            let other = left_after(n, links, removed.update(j, true));
            after < other || (after == other && cost <= links[j].symbols)
        },
{
    best_beats_rest(n, links, removed, 0, tried, None);
    assert(links[j].cuttable);
}

/// Every cut of a set is at a link that can be cut.
spec fn set_cuttable(links: Seq<Link>, set: Seq<(int, nat)>) -> bool {
    forall|k: int| 0 <= k < set.len() ==> at_cuttable(links, (#[trigger] set[k]).0)
}

proof fn greedy_is_sound(
    n: usize,
    links: Seq<Link>,
    removed: Seq<bool>,
    set: Seq<(int, nat)>,
    dissolved: bool,
    cfg: Deps,
)
    requires
        set_cuttable(links, set),
        set.len() <= cfg.max_cut_set,
        dissolved && set.len() > 0 ==> set.last().1 < cfg.min_cycle_size_to_cut,
    ensures
        ({
            let (s, d) = greedy_from(n, links, removed, set, dissolved, cfg);
            &&& set_cuttable(links, s)
            &&& s.len() <= cfg.max_cut_set
            &&& d && s.len() > 0 ==> s.last().1 < cfg.min_cycle_size_to_cut
        }),
    decreases cfg.max_cut_set - set.len(),
{
    if !dissolved && set.len() < cfg.max_cut_set {
        best_is_cuttable(n, links, removed, 0, cfg.max_edges_tried as nat, None);
        match best_cut(n, links, removed, cfg.max_edges_tried as nat) {
            None => {},
            Some((i, after)) => {
                greedy_is_sound(
                    n,
                    links,
                    removed.update(i, true),
                    set.push((i, after)),
                    after < cfg.min_cycle_size_to_cut,
                    cfg,
                );
            },
        }
    }
}

proof fn cuttable_is_no_declaration(edges: Seq<EdgeView>, members: Seq<Chars>, ignore: bool, i: int)
    requires
        at_cuttable(links_of(edges, members, ignore), i),
    ensures
        edges[links_of(edges, members, ignore)[i].at as int].kind != EdgeKind::Mod,
{
    let list = searched(edges, internal(edges, members), ignore);
    let by_cost = arranged(list, keys_cost(edges, list));
    assert(links_of(edges, members, ignore)[i] == link_of(edges, by_cost[i], members));
}

/// No cut is ever proposed at a `mod` declaration: neither the single cut nor one of the cut set.
pub proof fn cuts_spare_declarations(members: Seq<Chars>, n: usize, edges: Seq<EdgeView>, cfg: Deps, floor: usize)
    ensures
        cuts_of(members, n, edges, cfg, floor).single matches Some(s) ==> s.edge.kind != EdgeKind::Mod,
        forall|k: int|
            0 <= k < cuts_of(members, n, edges, cfg, floor).cut_set.len() ==> (#[trigger] cuts_of(
                members,
                n,
                edges,
                cfg,
                floor,
            ).cut_set[k]).edge.kind != EdgeKind::Mod,
{
    let ignore = cfg.ignore_type_only_imports;
    let links = links_of(edges, members, ignore);
    let none = nothing_removed(links);
    best_is_cuttable(n, links, none, 0, cfg.max_edges_tried as nat, None);
    match best_cut(n, links, none, cfg.max_edges_tried as nat) {
        Some((i, _)) => {
            cuttable_is_no_declaration(edges, members, ignore, i);
        },
        None => {},
    }
    let small = left_after(n, links, none) < cfg.min_cycle_size_to_cut;
    greedy_is_sound(n, links, none, Seq::empty(), small, cfg);
    let (set, dissolved) = greedy_from(n, links, none, Seq::empty(), small, cfg);
    let cut_set = cuts_of(members, n, edges, cfg, floor).cut_set;
    assert forall|k: int| 0 <= k < cut_set.len() implies (#[trigger] cut_set[k]).edge.kind != EdgeKind::Mod by {
        assert(at_cuttable(links, set[k].0));
        cuttable_is_no_declaration(edges, members, ignore, set[k].0);
    }
}

proof fn searched_holds_no_types(edges: Seq<EdgeView>, list: Seq<usize>)
    ensures
        forall|k: int|
            0 <= k < searched(edges, list, true).len() ==> edges[#[trigger] searched(edges, list, true)[k] as int].kind
                != EdgeKind::TypeOnly,
    decreases list.len(),
{
    if list.len() > 0 {
        searched_holds_no_types(edges, list.drop_last());
    }
}

proof fn links_hold_no_types(edges: Seq<EdgeView>, members: Seq<Chars>, i: int)
    requires
        0 <= i < links_of(edges, members, true).len(),
    ensures
        edges[links_of(edges, members, true)[i].at as int].kind != EdgeKind::TypeOnly,
{
    let list = searched(edges, internal(edges, members), true);
    let keys = keys_cost(edges, list);
    searched_holds_no_types(edges, internal(edges, members));
    ordered_bounds(keys, list.len() as int);
    let by_cost = arranged(list, keys);
    assert(links_of(edges, members, true)[i] == link_of(edges, by_cost[i], members));
    assert(by_cost[i] == list[ordered(keys, list.len() as int)[i]]);
}

/// Imports of types alone, which are erased at run time, are never proposed as a cut where they are
/// to be left out.
pub proof fn cuts_spare_type_imports(members: Seq<Chars>, n: usize, edges: Seq<EdgeView>, cfg: Deps, floor: usize)
    requires
        cfg.ignore_type_only_imports,
    ensures
        cuts_of(members, n, edges, cfg, floor).single matches Some(s) ==> s.edge.kind != EdgeKind::TypeOnly,
        forall|k: int|
            0 <= k < cuts_of(members, n, edges, cfg, floor).cut_set.len() ==> (#[trigger] cuts_of(
                members,
                n,
                edges,
                cfg,
                floor,
            ).cut_set[k]).edge.kind != EdgeKind::TypeOnly,
{
    let links = links_of(edges, members, true);
    let none = nothing_removed(links);
    best_is_cuttable(n, links, none, 0, cfg.max_edges_tried as nat, None);
    match best_cut(n, links, none, cfg.max_edges_tried as nat) {
        Some((i, _)) => {
            links_hold_no_types(edges, members, i);
        },
        None => {},
    }
    let small = left_after(n, links, none) < cfg.min_cycle_size_to_cut;
    greedy_is_sound(n, links, none, Seq::empty(), small, cfg);
    let (set, dissolved) = greedy_from(n, links, none, Seq::empty(), small, cfg);
    let cut_set = cuts_of(members, n, edges, cfg, floor).cut_set;
    assert forall|k: int| 0 <= k < cut_set.len() implies (#[trigger] cut_set[k]).edge.kind != EdgeKind::TypeOnly by {
        assert(at_cuttable(links, set[k].0));
        links_hold_no_types(edges, members, set[k].0);
    }
}

/// A cut set that is reported dissolves the cycle within as many edges as a cut set may hold: after
/// its last cut every cycle is smaller than those that are cut.
pub proof fn a_cut_set_dissolves(members: Seq<Chars>, n: usize, edges: Seq<EdgeView>, cfg: Deps, floor: usize)
    ensures
        ({
            let set = cuts_of(members, n, edges, cfg, floor).cut_set;
            &&& set.len() <= cfg.max_cut_set
            &&& set.len() > 0 ==> set.last().largest_after < cfg.min_cycle_size_to_cut
        }),
{
    let links = links_of(edges, members, cfg.ignore_type_only_imports);
    let none = nothing_removed(links);
    let small = left_after(n, links, none) < cfg.min_cycle_size_to_cut;
    greedy_is_sound(n, links, none, Seq::empty(), small, cfg);
}

/// A hub cut is reported only where it leaves a smaller cycle than the single cut.
pub proof fn a_hub_beats_the_single_cut(members: Seq<Chars>, n: usize, edges: Seq<EdgeView>, cfg: Deps, floor: usize)
    ensures
        ({
            let c = cuts_of(members, n, edges, cfg, floor);
            c.hub is Some && c.single is Some ==> c.hub->0.largest_after < c.single->0.largest_after
        }),
{
}

} // verus!
