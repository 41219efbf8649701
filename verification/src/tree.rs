//! Syntax trees as the passes read them: the nodes of one file in pre-order, each with its kind,
//! field, extent and text, its parent, its children and the end of its subtree.

use vstd::prelude::*;

use crate::cursor::{parsed, preordered, read_source, source_ordered};
use crate::lang::Language;
use crate::text::{put, same, Chars};

verus! {

/// One node as a grammar reports it, in the order a cursor meets it.
pub struct RawNode {
    pub kind: String,
    /// The field it fills in its parent, empty where it fills none.
    pub field: String,
    pub named: bool,
    pub start: usize,
    pub end: usize,
    pub row: usize,
    pub end_row: usize,
    pub depth: usize,
    /// The source between `start` and `end`, empty where that is not UTF-8.
    pub text: String,
}

/// A [`RawNode`] by its contents.
pub struct RawView {
    pub kind: Chars,
    pub field: Chars,
    pub named: bool,
    pub start: usize,
    pub end: usize,
    pub row: usize,
    pub end_row: usize,
    pub depth: usize,
    pub text: Chars,
}

impl DeepView for RawNode {
    type V = RawView;

    open spec fn deep_view(&self) -> RawView {
        RawView {
            kind: self.kind@,
            field: self.field@,
            named: self.named,
            start: self.start,
            end: self.end,
            row: self.row,
            end_row: self.end_row,
            depth: self.depth,
            text: self.text@,
        }
    }
}

/// One node of a tree.
pub struct Node {
    pub kind: String,
    pub field: String,
    pub named: bool,
    pub start: usize,
    pub end: usize,
    /// The line it starts on, from 1.
    pub line: usize,
    pub end_line: usize,
    pub text: String,
    pub parent: Option<usize>,
    pub children: Vec<usize>,
    /// The index one past the last descendant.
    pub after: usize,
}

/// A [`Node`] by its contents.
pub struct NodeView {
    pub kind: Chars,
    pub field: Chars,
    pub named: bool,
    pub start: usize,
    pub end: usize,
    pub line: usize,
    pub end_line: usize,
    pub text: Chars,
    pub parent: Option<usize>,
    pub children: Seq<usize>,
    pub after: usize,
}

/// The nodes of a tree.
pub type Nodes = Seq<NodeView>;

impl DeepView for Node {
    type V = NodeView;

    open spec fn deep_view(&self) -> NodeView {
        NodeView {
            kind: self.kind@,
            field: self.field@,
            named: self.named,
            start: self.start,
            end: self.end,
            line: self.line,
            end_line: self.end_line,
            text: self.text@,
            parent: self.parent,
            children: self.children@,
            after: self.after,
        }
    }
}

/// A syntax tree: its nodes in pre-order, the root first.
pub struct SyntaxTree {
    pub nodes: Vec<Node>,
}

impl View for SyntaxTree {
    type V = Nodes;

    open spec fn view(&self) -> Nodes {
        self.nodes.deep_view()
    }
}

/// A parent stands before its node, its children after it and in order, and a subtree ends after its root and
/// within the tree; a node ends on its first line or later.
pub open spec fn node_ok(t: Nodes, i: int) -> bool {
    &&& t[i].parent matches Some(p) ==> p < i
    &&& forall|k: int| 0 <= k < t[i].children.len() ==> i < #[trigger] t[i].children[k] < t.len()
    &&& forall|a: int, b: int|
        0 <= a < b < t[i].children.len() ==> #[trigger] t[i].children[a] < #[trigger] t[i].children[b]
    &&& i < t[i].after <= t.len()
    &&& 1 <= t[i].line <= t[i].end_line
}

/// Every node is in order.
pub open spec fn tree_ok(t: Nodes) -> bool {
    forall|i: int| 0 <= i < t.len() ==> #[trigger] node_ok(t, i)
}

/// The path from the root to node `i`: the path to the node before it, cut to the depth of `i`.
pub open spec fn path(raw: Seq<RawView>, i: int) -> Seq<int>
    decreases i,
{
    if i <= 0 {
        seq![0]
    } else {
        let p = path(raw, i - 1);
        p.take(if raw[i].depth < p.len() {
            raw[i].depth as int
        } else {
            p.len() as int
        }).push(i)
    }
}

/// The parent of node `i`: the last node but one on its path.
pub open spec fn parent_of(raw: Seq<RawView>, i: int) -> Option<int> {
    let p = path(raw, i);
    if p.len() >= 2 {
        Some(p[p.len() - 2])
    } else {
        None
    }
}

/// The nodes before `n` whose parent is `i`, in order.
pub open spec fn kids(raw: Seq<RawView>, i: int, n: int) -> Seq<int>
    decreases n,
{
    if n <= 0 {
        Seq::empty()
    } else if parent_of(raw, n - 1) == Some(i) {
        kids(raw, i, n - 1).push(n - 1)
    } else {
        kids(raw, i, n - 1)
    }
}

/// The first node at or after `j` that is no deeper than `i`, else the number of nodes.
pub open spec fn after_from(raw: Seq<RawView>, i: int, j: int) -> int
    decreases raw.len() - j,
{
    if j >= raw.len() {
        raw.len() as int
    } else if raw[j].depth <= raw[i].depth {
        j
    } else {
        after_from(raw, i, j + 1)
    }
}

/// The nodes of a tree are those of a pre-order list, with their relations.
pub open spec fn built(raw: Seq<RawView>, t: Nodes) -> bool {
    &&& t.len() == raw.len()
    &&& forall|i: int| 0 <= i < raw.len() ==> built_node(raw, #[trigger] t[i], i)
}

/// The line of a row: rows count from 0, lines from 1.
pub open spec fn line_of(row: usize) -> usize {
    if row < usize::MAX {
        (row + 1) as usize
    } else {
        row
    }
}

/// Node `i` of a pre-order list, with its relations.
pub open spec fn built_node(raw: Seq<RawView>, n: NodeView, i: int) -> bool {
    let r = raw[i];
    &&& n.kind == r.kind
    &&& n.field == r.field
    &&& n.named == r.named
    &&& n.start == r.start
    &&& n.end == r.end
    &&& n.line == line_of(r.row)
    &&& n.end_line == (if line_of(r.end_row) < n.line { n.line } else { line_of(r.end_row) })
    &&& n.text == r.text
    &&& crate::text::as_int(n.parent) == parent_of(raw, i)
    &&& ints(n.children) == kids(raw, i, raw.len() as int)
    &&& n.after == after_from(raw, i, i + 1)
}

/// `root` is what the grammar of `lang` makes of `src`: a tree, or none.
pub open spec fn reads_as(lang: Language, src: Chars, root: Option<Nodes>) -> bool {
    match (root, parsed(lang, src)) {
        (Some(t), Some(raw)) => built(raw, t) && tree_ok(t),
        (None, None) => true,
        _ => false,
    }
}

/// A text reads one way: a tree is fixed by the grammar and the text.
pub proof fn a_text_reads_one_way(lang: Language, src: Chars, a: Option<Nodes>, b: Option<Nodes>)
    requires
        reads_as(lang, src, a),
        reads_as(lang, src, b),
    ensures
        a == b,
{
    if let (Some(t), Some(u)) = (a, b) {
        let raw = parsed(lang, src)->0;
        assert forall|i: int| 0 <= i < raw.len() implies t[i] == u[i] by {
            assert(built_node(raw, t[i], i) && built_node(raw, u[i], i));
            let x = t[i].children;
            let y = u[i].children;
            assert(x.len() == ints(x).len() && y.len() == ints(y).len());
            assert forall|k: int| 0 <= k < x.len() implies x[k] == y[k] by {
                assert(ints(x)[k] == ints(y)[k]);
            }
            assert(x =~= y);
            match (t[i].parent, u[i].parent) {
                (Some(p), Some(q)) => {
                    assert(crate::text::as_int(t[i].parent) == Some(p as int));
                    assert(crate::text::as_int(u[i].parent) == Some(q as int));
                },
                _ => {},
            }
        }
        assert(t =~= u);
    }
}

/// The nodes of a tree, where there is one.
pub open spec fn opt_nodes(t: Option<SyntaxTree>) -> Option<Nodes> {
    match t {
        Some(t) => Some(t@),
        None => None,
    }
}

/// Machine indices as mathematical ones.
pub open spec fn ints(s: Seq<usize>) -> Seq<int> {
    Seq::new(s.len(), |i: int| s[i] as int)
}

pub(crate) proof fn path_is_ascending(raw: Seq<RawView>, i: int)
    requires
        0 <= i,
    ensures
        path(raw, i).len() >= 1,
        path(raw, i).last() == i,
        forall|a: int, b: int| 0 <= a < b < path(raw, i).len() ==> 0 <= #[trigger] path(raw, i)[a] < #[trigger] path(raw, i)[b],
    decreases i,
{
    if i > 0 {
        path_is_ascending(raw, i - 1);
        let p = path(raw, i - 1);
        assert forall|a: int| 0 <= a < p.len() implies #[trigger] p[a] <= i - 1 by {
            if a < p.len() - 1 {
                assert(p[a] < p[p.len() - 1]);
            }
        }
        assert forall|a: int, b: int| 0 <= a < b < path(raw, i).len() implies 0 <= #[trigger] path(raw, i)[a]
            < #[trigger] path(raw, i)[b] by {
            if b < path(raw, i).len() - 1 {
                assert(p[a] < p[b]);
            } else {
                assert(p[a] <= i - 1);
                if p.len() > 1 {
                    assert(0 <= p[0]);
                    if a > 0 {
                        assert(p[0] < p[a]);
                    }
                }
            }
        }
    }
}

pub(crate) proof fn kids_are_later(raw: Seq<RawView>, i: int, n: int)
    requires
        0 <= i,
    ensures
        forall|k: int| 0 <= k < kids(raw, i, n).len() ==> i < #[trigger] kids(raw, i, n)[k] < n,
        forall|a: int, b: int|
            0 <= a < b < kids(raw, i, n).len() ==> #[trigger] kids(raw, i, n)[a] < #[trigger] kids(raw, i, n)[b],
    decreases n,
{
    if n > 0 {
        kids_are_later(raw, i, n - 1);
        path_is_ascending(raw, n - 1);
        let p = path(raw, n - 1);
        if p.len() >= 2 {
            assert(p[p.len() - 2] < p[p.len() - 1]);
        }
        let before = kids(raw, i, n - 1);
        assert forall|k: int| 0 <= k < kids(raw, i, n).len() implies i < #[trigger] kids(raw, i, n)[k] < n by {
            if k < before.len() {
                assert(i < before[k] < n - 1);
            }
        }
        assert forall|a: int, b: int| 0 <= a < b < kids(raw, i, n).len() implies #[trigger] kids(raw, i, n)[a]
            < #[trigger] kids(raw, i, n)[b] by {
            assert(i < before[a] < n - 1);
            if b < before.len() {
                assert(before[a] < before[b]);
            }
        }
    }
}

proof fn after_is_later(raw: Seq<RawView>, i: int, j: int)
    requires
        i < j <= raw.len(),
    ensures
        i < after_from(raw, i, j) <= raw.len(),
    decreases raw.len() - j,
{
    if j < raw.len() && raw[j].depth > raw[i].depth {
        after_is_later(raw, i, j + 1);
    }
}

// ---------- source order ----------

/// A node ends no earlier than it starts, and a child starts no earlier than the one before it ends.
pub open spec fn in_source_order(t: Nodes) -> bool {
    &&& forall|i: int| 0 <= i < t.len() ==> (#[trigger] t[i]).start <= t[i].end
    &&& forall|i: int, a: int, b: int|
        0 <= i < t.len() && 0 <= a < b < t[i].children.len() ==> t[#[trigger] t[i].children[a] as int].end
            <= t[#[trigger] t[i].children[b] as int].start
}

pub(crate) proof fn path_is_by_depth(raw: Seq<RawView>, i: int)
    requires
        preordered(raw),
        0 <= i < raw.len(),
    ensures
        path(raw, i).len() == raw[i].depth + 1,
        forall|k: int|
            0 <= k < path(raw, i).len() ==> 0 <= #[trigger] path(raw, i)[k] <= i && raw[path(raw, i)[k]].depth == k,
    decreases i,
{
    if i > 0 {
        path_is_by_depth(raw, i - 1);
        let p = path(raw, i - 1);
        assert(raw[i].depth <= raw[i - 1].depth + 1);
        assert forall|k: int| 0 <= k < path(raw, i).len() implies 0 <= #[trigger] path(raw, i)[k] <= i && raw[path(raw, i)[k]].depth
            == k by {
            if k < raw[i].depth {
                assert(path(raw, i)[k] == p[k]);
            }
        }
    }
}

pub(crate) proof fn kids_are_one_deeper(raw: Seq<RawView>, i: int, n: int)
    requires
        preordered(raw),
        0 <= n <= raw.len(),
    ensures
        forall|k: int|
            0 <= k < kids(raw, i, n).len() ==> 0 <= #[trigger] kids(raw, i, n)[k] < n && raw[kids(raw, i, n)[k]].depth
                == raw[i].depth + 1,
    decreases n,
{
    if n > 0 {
        kids_are_one_deeper(raw, i, n - 1);
        path_is_by_depth(raw, n - 1);
        let p = path(raw, n - 1);
        let before = kids(raw, i, n - 1);
        assert forall|k: int| 0 <= k < kids(raw, i, n).len() implies 0 <= #[trigger] kids(raw, i, n)[k] < n && raw[kids(
            raw,
            i,
            n,
        )[k]].depth == raw[i].depth + 1 by {
            if k < before.len() {
                assert(0 <= before[k] < n - 1);
            } else {
                assert(raw[p[p.len() - 2]].depth == p.len() - 2);
            }
        }
    }
}

/// A tree built from nodes in source order is in source order.
pub proof fn source_order_is_kept(raw: Seq<RawView>, t: Nodes)
    requires
        preordered(raw),
        source_ordered(raw),
        built(raw, t),
    ensures
        in_source_order(t),
{
    assert forall|i: int| 0 <= i < t.len() implies (#[trigger] t[i]).start <= t[i].end by {
        assert(built_node(raw, t[i], i));
        assert(raw[i].start <= raw[i].end);
    }
    assert forall|i: int, a: int, b: int| 0 <= i < t.len() && 0 <= a < b < t[i].children.len() implies t[#[trigger] t[i].children[a] as int].end
        <= t[#[trigger] t[i].children[b] as int].start by {
        assert(built_node(raw, t[i], i));
        let list = kids(raw, i, raw.len() as int);
        kids_are_one_deeper(raw, i, raw.len() as int);
        kids_are_later(raw, i, raw.len() as int);
        assert(ints(t[i].children)[a] == list[a] && ints(t[i].children)[b] == list[b]);
        let x = list[a];
        let y = list[b];
        assert(x < y);
        crate::cursor::after_is_first(raw, x, x + 1);
        assert(after_from(raw, x, x + 1) <= y) by {
            if y < after_from(raw, x, x + 1) {
                assert(raw[y].depth > raw[x].depth);
            }
        }
        assert(raw[x].end <= raw[y].start);
        assert(built_node(raw, t[x], x) && built_node(raw, t[y], y));
    }
}

impl SyntaxTree {
    /// Every node is in order.
    pub open spec fn ok(&self) -> bool {
        tree_ok(self@)
    }

    /// The tree of a pre-order list.
    pub fn from_raw(raw: Vec<RawNode>) -> (t: SyntaxTree)
        ensures
            built(raw.deep_view(), t@),
            t.ok(),
    {
        let ghost view = raw.deep_view();
        let n: usize = raw.len();
        let mut parents: Vec<Option<usize>> = Vec::new();
        let mut kids_of: Vec<Vec<usize>> = Vec::new();
        let mut stack: Vec<usize> = Vec::new();
        let mut i: usize = 0;
        while i < n
            invariant
                i <= n == raw.len(),
                view == raw.deep_view(),
                parents.len() == i,
                kids_of.len() == i,
                i > 0 ==> ints(stack@) == path(view, i - 1),
                i == 0 ==> stack.len() == 0,
                forall|k: int| 0 <= k < i ==> crate::text::as_int(#[trigger] parents@[k]) == parent_of(view, k),
                forall|k: int| 0 <= k < i ==> ints(#[trigger] kids_of@[k]@) == kids(view, k, i as int),
            decreases n - i,
        {
            assert(view[i as int].depth == raw[i as int].depth);
            if raw[i].depth < stack.len() && i > 0 {
                stack.truncate(raw[i].depth);
            }
            stack.push(i);
            proof {
                path_is_ascending(view, i as int);
                if i > 0 {
                    let p = path(view, i - 1);
                    let cut = if view[i as int].depth < p.len() {
                        view[i as int].depth as int
                    } else {
                        p.len() as int
                    };
                    assert(ints(stack@) =~= p.take(cut).push(i as int));
                } else {
                    assert(ints(stack@) =~= seq![0]);
                }
            }
            let parent: Option<usize> = if stack.len() >= 2 {
                Some(stack[stack.len() - 2])
            } else {
                None
            };
            proof {
                kids_are_later(view, i as int, i as int);
                assert(kids(view, i as int, i as int) =~= Seq::<int>::empty()) by {
                    if kids(view, i as int, i as int).len() > 0 {
                        let x = kids(view, i as int, i as int)[0];
                        assert(i < x < i);
                    }
                }
            }
            parents.push(parent);
            let fresh: Vec<usize> = Vec::new();
            assert(ints(fresh@) =~= Seq::<int>::empty());
            kids_of.push(fresh);
            let ghost old_kids = kids_of@;
            match parent {
                Some(p) => {
                    proof {
                        let q = path(view, i as int);
                        assert(ints(stack@)[q.len() - 2] == p as int);
                        assert(q[q.len() - 2] < q[q.len() - 1]);
                    }
                    kids_of[p].push(i);
                    assert(ints(kids_of@[p as int]@) =~= ints(old_kids[p as int]@).push(i as int));
                },
                None => {},
            }
            assert(crate::text::as_int(parent) == parent_of(view, i as int));
            assert forall|k: int| 0 <= k < i + 1 implies ints(#[trigger] kids_of@[k]@) == kids(view, k, i + 1) by {
                path_is_ascending(view, i as int);
            }
            i = i + 1;
        }
        let mut nodes: Vec<Node> = Vec::new();
        i = 0;
        while i < n
            invariant
                i <= n == raw.len(),
                view == raw.deep_view(),
                parents.len() == n,
                kids_of.len() == n,
                nodes.len() == i,
                forall|k: int| 0 <= k < n ==> crate::text::as_int(#[trigger] parents@[k]) == parent_of(view, k),
                forall|k: int| 0 <= k < n ==> ints(#[trigger] kids_of@[k]@) == kids(view, k, n as int),
                forall|k: int| 0 <= k < i ==> built_node(view, #[trigger] nodes.deep_view()[k], k),
            decreases n - i,
        {
            let mut j: usize = i + 1;
            while j < n && raw[j].depth > raw[i].depth
                invariant
                    i < j <= n == raw.len(),
                    view == raw.deep_view(),
                    after_from(view, i as int, i + 1) == after_from(view, i as int, j as int),
                decreases n - j,
            {
                j = j + 1;
            }
            let r = &raw[i];
            let line: usize = r.row.saturating_add(1);
            let last: usize = r.end_row.saturating_add(1);
            let node = Node {
                kind: r.kind.clone(),
                field: r.field.clone(),
                named: r.named,
                start: r.start,
                end: r.end,
                line,
                end_line: if last < line {
                    line
                } else {
                    last
                },
                text: r.text.clone(),
                parent: parents[i],
                children: copy_indices(&kids_of[i]),
                after: j,
            };
            put(&mut nodes, node);
            i = i + 1;
        }
        let t = SyntaxTree { nodes };
        assert forall|k: int| 0 <= k < t@.len() implies #[trigger] node_ok(t@, k) by {
            let node = t@[k];
            assert(built_node(view, node, k));
            path_is_ascending(view, k);
            kids_are_later(view, k, n as int);
            after_is_later(view, k, k + 1);
            let p = path(view, k);
            if p.len() >= 2 {
                assert(p[p.len() - 2] < p[p.len() - 1]);
            }
            assert forall|c: int| 0 <= c < node.children.len() implies k < #[trigger] node.children[c] < t@.len() by {
                assert(ints(node.children)[c] == node.children[c] as int);
            }
            assert forall|a: int, b: int| 0 <= a < b < node.children.len() implies #[trigger] node.children[a]
                < #[trigger] node.children[b] by {
                assert(ints(node.children)[a] < ints(node.children)[b]);
            }
        }
        t
    }

    /// Parse one source.
    pub fn parse(lang: Language, src: &str) -> (r: Option<SyntaxTree>)
        ensures
            reads_as(lang, src@, opt_nodes(r)),
            r matches Some(t) ==> t.ok(),
            r matches Some(t) ==> (vstd::utf8::encode_utf8(src@).len() <= u32::MAX ==> in_source_order(t@)),
    {
        match read_source(lang, src) {
            Some(list) => {
                let ghost raw = list.deep_view();
                let t = SyntaxTree::from_raw(list);
                proof {
                    if source_ordered(raw) {
                        source_order_is_kept(raw, t@);
                    }
                }
                Some(t)
            },
            None => None,
        }
    }
}

/// A copy of a list of indices.
pub fn copy_indices(v: &Vec<usize>) -> (out: Vec<usize>)
    ensures
        out@ == v@,
{
    let mut out: Vec<usize> = Vec::new();
    let mut i: usize = 0;
    while i < v.len()
        invariant
            i <= v.len(),
            out@ == v@.take(i as int),
        decreases v.len() - i,
    {
        out.push(v[i]);
        assert(v@.take(i + 1) =~= v@.take(i as int).push(v@[i as int]));
        i = i + 1;
    }
    assert(v@.take(v@.len() as int) =~= v@);
    out
}

// ---------- moving about ----------

/// The first of `kids`, from `k` on, that fills `field`.
pub open spec fn filling(t: Nodes, kids: Seq<usize>, field: Chars, k: int) -> Option<usize>
    decreases kids.len() - k,
{
    if k < 0 || k >= kids.len() {
        None
    } else if t[kids[k] as int].field == field {
        Some(kids[k])
    } else {
        filling(t, kids, field, k + 1)
    }
}

/// The child of `i` that fills `field`.
pub open spec fn child_of(t: Nodes, i: int, field: Chars) -> Option<usize> {
    filling(t, t[i].children, field, 0)
}

/// The named ones of `kids`, in order.
pub open spec fn named_of(t: Nodes, kids: Seq<usize>) -> Seq<usize>
    decreases kids.len(),
{
    if kids.len() == 0 {
        Seq::empty()
    } else if t[kids.last() as int].named {
        named_of(t, kids.drop_last()).push(kids.last())
    } else {
        named_of(t, kids.drop_last())
    }
}

/// The named children of `i`.
pub open spec fn named_kids(t: Nodes, i: int) -> Seq<usize> {
    named_of(t, t[i].children)
}

/// The named child of `i` at `k`.
pub open spec fn named_at(t: Nodes, i: int, k: int) -> Option<usize> {
    if 0 <= k < named_kids(t, i).len() {
        Some(named_kids(t, i)[k])
    } else {
        None
    }
}

/// Where `i` stands in `kids`, at or after `k`.
pub open spec fn place_from(kids: Seq<usize>, i: int, k: int) -> Option<int>
    decreases kids.len() - k,
{
    if k < 0 || k >= kids.len() {
        None
    } else if kids[k] == i {
        Some(k)
    } else {
        place_from(kids, i, k + 1)
    }
}

/// The last of `kids` before `k` that is named, or that is there where `any`.
pub open spec fn left_of(t: Nodes, kids: Seq<usize>, any: bool, k: int) -> Option<usize>
    decreases k,
{
    if k <= 0 || k > kids.len() {
        None
    } else if any || t[kids[k - 1] as int].named {
        Some(kids[k - 1])
    } else {
        left_of(t, kids, any, k - 1)
    }
}

/// The first of `kids` from `k` on that is named, or that is there where `any`.
pub open spec fn right_of(t: Nodes, kids: Seq<usize>, any: bool, k: int) -> Option<usize>
    decreases kids.len() - k,
{
    if k < 0 || k >= kids.len() {
        None
    } else if any || t[kids[k] as int].named {
        Some(kids[k])
    } else {
        right_of(t, kids, any, k + 1)
    }
}

/// The sibling before `i`: the nearest, or the nearest named one.
pub open spec fn before_of(t: Nodes, i: int, any: bool) -> Option<usize> {
    match t[i].parent {
        None => None,
        Some(p) => match place_from(t[p as int].children, i, 0) {
            None => None,
            Some(k) => left_of(t, t[p as int].children, any, k),
        },
    }
}

/// The sibling after `i`: the nearest, or the nearest named one.
pub open spec fn after_of(t: Nodes, i: int, any: bool) -> Option<usize> {
    match t[i].parent {
        None => None,
        Some(p) => match place_from(t[p as int].children, i, 0) {
            None => None,
            Some(k) => right_of(t, t[p as int].children, any, k + 1),
        },
    }
}

/// Is there a node, and has it the kind `kind`?
pub open spec fn is_kind(t: Nodes, i: Option<usize>, kind: Chars) -> bool {
    match i {
        Some(n) => t[n as int].kind == kind,
        None => false,
    }
}

proof fn named_are_kids(t: Nodes, kids: Seq<usize>, lo: int)
    requires
        forall|k: int| 0 <= k < kids.len() ==> lo < #[trigger] kids[k] < t.len(),
    ensures
        forall|k: int| 0 <= k < named_of(t, kids).len() ==> lo < #[trigger] named_of(t, kids)[k] < t.len(),
    decreases kids.len(),
{
    if kids.len() > 0 {
        let rest = kids.drop_last();
        assert(forall|k: int| 0 <= k < rest.len() ==> rest[k] == kids[k]);
        named_are_kids(t, rest, lo);
        assert forall|k: int| 0 <= k < named_of(t, kids).len() implies lo < #[trigger] named_of(t, kids)[k]
            < t.len() by {
            if k < named_of(t, rest).len() {
                assert(lo < named_of(t, rest)[k] < t.len());
            } else {
                assert(kids[kids.len() - 1] == kids.last());
            }
        }
    }
}

/// The named children of a node stand after it.
pub proof fn named_kids_are_later(t: Nodes, i: int)
    requires
        tree_ok(t),
        0 <= i < t.len(),
    ensures
        forall|k: int| 0 <= k < named_kids(t, i).len() ==> i < #[trigger] named_kids(t, i)[k] < t.len(),
{
    assert(node_ok(t, i));
    named_are_kids(t, t[i].children, i);
}

impl SyntaxTree {
    /// The number of nodes.
    pub fn len(&self) -> (n: usize)
        ensures
            n == self@.len(),
    {
        self.nodes.len()
    }

    /// The kind of node `i`.
    pub fn kind(&self, i: usize) -> (r: &str)
        requires
            i < self@.len(),
        ensures
            r@ == self@[i as int].kind,
    {
        self.nodes[i].kind.as_str()
    }

    /// The text of node `i`.
    pub fn text(&self, i: usize) -> (r: &str)
        requires
            i < self@.len(),
        ensures
            r@ == self@[i as int].text,
    {
        self.nodes[i].text.as_str()
    }

    /// Has node `i` the kind `kind`?
    pub fn is(&self, i: usize, kind: &str) -> (r: bool)
        requires
            i < self@.len(),
        ensures
            r == (self@[i as int].kind == kind@),
    {
        same(self.nodes[i].kind.as_str(), kind)
    }

    /// Is there a node, and has it the kind `kind`?
    pub fn opt_is(&self, i: Option<usize>, kind: &str) -> (r: bool)
        requires
            i matches Some(n) ==> n < self@.len(),
        ensures
            r == is_kind(self@, i, kind@),
    {
        match i {
            Some(n) => self.is(n, kind),
            None => false,
        }
    }

    /// The parent of node `i`.
    pub fn parent(&self, i: usize) -> (r: Option<usize>)
        requires
            self.ok(),
            i < self@.len(),
        ensures
            r == self@[i as int].parent,
            r matches Some(p) ==> p < i,
    {
        assert(node_ok(self@, i as int));
        self.nodes[i].parent
    }

    /// The first child of `i` that fills `field`.
    pub fn child(&self, i: usize, field: &str) -> (r: Option<usize>)
        requires
            self.ok(),
            i < self@.len(),
        ensures
            r == child_of(self@, i as int, field@),
            r matches Some(c) ==> i < c < self@.len(),
    {
        let kids = &self.nodes[i].children;
        assert(node_ok(self@, i as int));
        let ghost all = self@[i as int].children;
        let mut k: usize = 0;
        while k < kids.len()
            invariant
                k <= kids.len(),
                all == kids@,
                self.ok(),
                node_ok(self@, i as int),
                i < self@.len(),
                all == self@[i as int].children,
                child_of(self@, i as int, field@) == filling(self@, all, field@, k as int),
            decreases kids.len() - k,
        {
            let c: usize = kids[k];
            assert(i < all[k as int] < self@.len());
            assert(self@[c as int].field == self.nodes[c as int].field@);
            if same(self.nodes[c].field.as_str(), field) {
                return Some(c);
            }
            k = k + 1;
        }
        None
    }

    /// The named children of `i`.
    pub fn named_children(&self, i: usize) -> (out: Vec<usize>)
        requires
            self.ok(),
            i < self@.len(),
        ensures
            out@ == named_kids(self@, i as int),
            forall|k: int| 0 <= k < out@.len() ==> i < #[trigger] out@[k] < self@.len(),
    {
        let kids = &self.nodes[i].children;
        assert(node_ok(self@, i as int));
        let ghost all = self@[i as int].children;
        let mut out: Vec<usize> = Vec::new();
        let mut k: usize = 0;
        while k < kids.len()
            invariant
                k <= kids.len(),
                all == kids@,
                self.ok(),
                node_ok(self@, i as int),
                i < self@.len(),
                all == self@[i as int].children,
                out@ == named_of(self@, all.take(k as int)),
            decreases kids.len() - k,
        {
            let c: usize = kids[k];
            assert(i < all[k as int] < self@.len());
            assert(all.take(k + 1).drop_last() =~= all.take(k as int));
            assert(self@[c as int].named == self.nodes[c as int].named);
            if self.nodes[c].named {
                out.push(c);
            }
            k = k + 1;
        }
        assert(all.take(all.len() as int) =~= all);
        proof {
            named_are_kids(self@, all, i as int);
        }
        out
    }

    /// The named child of `i` at `k`.
    pub fn named_child(&self, i: usize, k: usize) -> (r: Option<usize>)
        requires
            self.ok(),
            i < self@.len(),
        ensures
            r == named_at(self@, i as int, k as int),
            r matches Some(c) ==> i < c < self@.len(),
    {
        let kids = self.named_children(i);
        if k < kids.len() {
            Some(kids[k])
        } else {
            None
        }
    }

    /// Where `i` stands among the children of `p`.
    fn place(&self, p: usize, i: usize) -> (r: Option<usize>)
        requires
            p < self@.len(),
        ensures
            crate::text::as_int(r) == place_from(self@[p as int].children, i as int, 0),
            r matches Some(k) ==> k < self@[p as int].children.len() && self@[p as int].children[k as int] == i,
    {
        let kids = &self.nodes[p].children;
        let mut k: usize = 0;
        while k < kids.len()
            invariant
                k <= kids.len(),
                kids@ == self@[p as int].children,
                place_from(kids@, i as int, 0) == place_from(kids@, i as int, k as int),
            decreases kids.len() - k,
        {
            if kids[k] == i {
                return Some(k);
            }
            k = k + 1;
        }
        None
    }

    /// The sibling before `i`: the nearest, or the nearest named one.
    pub fn prev(&self, i: usize, any: bool) -> (r: Option<usize>)
        requires
            self.ok(),
            i < self@.len(),
        ensures
            r == before_of(self@, i as int, any),
            r matches Some(c) ==> c < i,
    {
        match self.parent(i) {
            None => None,
            Some(p) => match self.place(p, i) {
                None => None,
                Some(at) => {
                    assert(node_ok(self@, p as int));
                    let kids = &self.nodes[p].children;
                    let mut k: usize = at;
                    while k > 0
                        invariant
                            k <= at < kids.len(),
                            p < self@.len(),
                            node_ok(self@, p as int),
                            kids@ == self@[p as int].children,
                            kids@[at as int] == i,
                            before_of(self@, i as int, any) == left_of(self@, kids@, any, k as int),
                        decreases k,
                    {
                        let c: usize = kids[k - 1];
                        assert(p < self@[p as int].children[k - 1] < self@.len());
                        assert(self@[p as int].children[k - 1] < self@[p as int].children[at as int]);
                        assert(self@[c as int].named == self.nodes[c as int].named);
                        if any || self.nodes[c].named {
                            return Some(c);
                        }
                        k = k - 1;
                    }
                    None
                },
            },
        }
    }

    /// The sibling after `i`: the nearest, or the nearest named one.
    pub fn next(&self, i: usize, any: bool) -> (r: Option<usize>)
        requires
            self.ok(),
            i < self@.len(),
        ensures
            r == after_of(self@, i as int, any),
            r matches Some(c) ==> i < c < self@.len(),
    {
        match self.parent(i) {
            None => None,
            Some(p) => match self.place(p, i) {
                None => None,
                Some(at) => {
                    assert(node_ok(self@, p as int));
                    let kids = &self.nodes[p].children;
                    assert(at < kids.len());
                    let mut k: usize = at + 1;
                    while k < kids.len()
                        invariant
                            at < k <= kids.len(),
                            p < self@.len(),
                            node_ok(self@, p as int),
                            kids@ == self@[p as int].children,
                            kids@[at as int] == i,
                            after_of(self@, i as int, any) == right_of(self@, kids@, any, k as int),
                        decreases kids.len() - k,
                    {
                        let c: usize = kids[k];
                        assert(p < self@[p as int].children[k as int] < self@.len());
                        assert(self@[p as int].children[at as int] < self@[p as int].children[k as int]);
                        assert(self@[c as int].named == self.nodes[c as int].named);
                        if any || self.nodes[c].named {
                            return Some(c);
                        }
                        k = k + 1;
                    }
                    None
                },
            },
        }
    }
}

// ---------- what the lookups find ----------

proof fn filling_is_first(t: Nodes, kids: Seq<usize>, field: Chars, k: int, j: int)
    requires
        0 <= k <= j < kids.len(),
        t[kids[j] as int].field == field,
        forall|i: int| k <= i < j ==> t[#[trigger] kids[i] as int].field != field,
    ensures
        filling(t, kids, field, k) == Some(kids[j]),
    decreases j - k,
{
    if k < j {
        filling_is_first(t, kids, field, k + 1, j);
    }
}

proof fn nothing_fills(t: Nodes, kids: Seq<usize>, field: Chars, k: int)
    requires
        0 <= k,
        forall|i: int| k <= i < kids.len() ==> t[#[trigger] kids[i] as int].field != field,
    ensures
        filling(t, kids, field, k) is None,
    decreases kids.len() - k,
{
    if k < kids.len() {
        nothing_fills(t, kids, field, k + 1);
    }
}

/// The child of a field is the first child with that field, and there is one exactly where some child
/// has the field.
pub proof fn a_field_has_its_first_child(t: Nodes, i: int, field: Chars)
    ensures
        forall|j: int|
            0 <= j < t[i].children.len() && t[#[trigger] t[i].children[j] as int].field == field && (forall|m: int|
                0 <= m < j ==> t[#[trigger] t[i].children[m] as int].field != field) ==> child_of(t, i, field) == Some(
                t[i].children[j],
            ),
        (forall|j: int| 0 <= j < t[i].children.len() ==> t[#[trigger] t[i].children[j] as int].field != field) ==> child_of(
            t,
            i,
            field,
        ) is None,
{
    let kids = t[i].children;
    assert forall|j: int|
        0 <= j < kids.len() && t[#[trigger] kids[j] as int].field == field && (forall|m: int|
            0 <= m < j ==> t[#[trigger] kids[m] as int].field != field) implies child_of(t, i, field) == Some(kids[j]) by {
        filling_is_first(t, kids, field, 0, j);
    }
    if forall|j: int| 0 <= j < kids.len() ==> t[#[trigger] kids[j] as int].field != field {
        nothing_fills(t, kids, field, 0);
    }
}

proof fn named_are_those_named(t: Nodes, kids: Seq<usize>)
    ensures
        named_of(t, kids) == kids.filter(|c: usize| t[c as int].named),
    decreases kids.len(),
{
    reveal(Seq::filter);
    if kids.len() > 0 {
        named_are_those_named(t, kids.drop_last());
    }
}

/// The named children are the children that are named, in their order.
pub proof fn the_named_children_are_kept(t: Nodes, i: int)
    ensures
        named_kids(t, i) == t[i].children.filter(|c: usize| t[c as int].named),
        forall|k: int|
            0 <= k < t[i].children.len() && t[#[trigger] t[i].children[k] as int].named ==> named_kids(t, i).contains(t[i].children[k]),
{
    named_are_those_named(t, t[i].children);
    let keep = |c: usize| t[c as int].named;
    assert forall|k: int| 0 <= k < t[i].children.len() && t[#[trigger] t[i].children[k] as int].named implies named_kids(t, i).contains(
        t[i].children[k],
    ) by {
        t[i].children.lemma_filter_contains(keep, k);
    }
}

proof fn place_is_its_index(kids: Seq<usize>, i: int, k: int, j: int)
    requires
        0 <= j <= k < kids.len(),
        kids[k] == i,
        forall|m: int| j <= m < k ==> #[trigger] kids[m] != i,
    ensures
        place_from(kids, i, j) == Some(k),
    decreases k - j,
{
    if j < k {
        place_is_its_index(kids, i, k, j + 1);
    }
}

proof fn left_is_nearest(t: Nodes, kids: Seq<usize>, k: int, j: int)
    requires
        0 <= j < k <= kids.len(),
        t[kids[j] as int].named,
        forall|m: int| j < m < k ==> !t[#[trigger] kids[m] as int].named,
    ensures
        left_of(t, kids, false, k) == Some(kids[j]),
    decreases k - j,
{
    if j < k - 1 {
        assert(!t[kids[k - 1] as int].named);
        left_is_nearest(t, kids, k - 1, j);
    }
}

proof fn right_is_nearest(t: Nodes, kids: Seq<usize>, k: int, j: int)
    requires
        0 <= k <= j < kids.len(),
        t[kids[j] as int].named,
        forall|m: int| k <= m < j ==> !t[#[trigger] kids[m] as int].named,
    ensures
        right_of(t, kids, false, k) == Some(kids[j]),
    decreases j - k,
{
    if k < j {
        right_is_nearest(t, kids, k + 1, j);
    }
}

/// What stands before a child is the child before it, or the nearest named one before it; what stands
/// after it likewise. Before the first child and after the last there is nothing.
pub proof fn siblings_are_nearest(t: Nodes, p: usize, k: int)
    requires
        tree_ok(t),
        p < t.len(),
        0 <= k < t[p as int].children.len(),
        t[t[p as int].children[k] as int].parent == Some(p),
    ensures
        ({
            let kids = t[p as int].children;
            let i = kids[k] as int;
            &&& before_of(t, i, true) == (if k > 0 { Some(kids[k - 1]) } else { None })
            &&& after_of(t, i, true) == (if k + 1 < kids.len() { Some(kids[k + 1]) } else { None })
            &&& forall|j: int|
                0 <= j < k && t[#[trigger] kids[j] as int].named && (forall|m: int|
                    j < m < k ==> !t[#[trigger] kids[m] as int].named) ==> before_of(t, i, false) == Some(kids[j])
            &&& forall|j: int|
                k < j < kids.len() && t[#[trigger] kids[j] as int].named && (forall|m: int|
                    k < m < j ==> !t[#[trigger] kids[m] as int].named) ==> after_of(t, i, false) == Some(kids[j])
        }),
{
    let kids = t[p as int].children;
    let i = kids[k] as int;
    assert(node_ok(t, p as int));
    place_is_its_index(kids, i, k, 0);
    assert forall|j: int|
        0 <= j < k && t[#[trigger] kids[j] as int].named && (forall|m: int|
            j < m < k ==> !t[#[trigger] kids[m] as int].named) implies before_of(t, i, false) == Some(kids[j]) by {
        left_is_nearest(t, kids, k, j);
    }
    assert forall|j: int|
        k < j < kids.len() && t[#[trigger] kids[j] as int].named && (forall|m: int|
            k < m < j ==> !t[#[trigger] kids[m] as int].named) implies after_of(t, i, false) == Some(kids[j]) by {
        right_is_nearest(t, kids, k + 1, j);
    }
}

} // verus!
