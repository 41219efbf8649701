//! Parsing a source with the grammar of its language, and walking the tree that comes of it.

use vstd::prelude::*;

use crate::lang::Language;
use crate::text::{put, Chars};
use crate::tree::{after_from, RawNode, RawView};

verus! {

// ---------- what tree-sitter gives ----------

/// `tree_sitter::Tree`: a parsed tree, of which nothing is known but the nodes read from it.
#[verifier::external_type_specification]
#[verifier::external_body]
pub struct ExTree(tree_sitter::Tree);

/// `tree_sitter::TreeCursor`: a place in a tree.
#[verifier::external_type_specification]
#[verifier::external_body]
pub struct ExTreeCursor<'tree>(tree_sitter::TreeCursor<'tree>);

/// The tree that the grammar of `lang` makes of `src`.
pub uninterp spec fn tree_of(lang: Language, src: Chars) -> Option<tree_sitter::Tree>;

/// The nodes of a tree in pre-order, read against its source.
pub uninterp spec fn tree_nodes(tree: tree_sitter::Tree, src: Chars) -> Seq<RawView>;

/// The tree that a cursor walks.
pub uninterp spec fn cursor_tree(c: tree_sitter::TreeCursor<'_>) -> tree_sitter::Tree;

/// The node a cursor stands at, by its place in pre-order.
pub uninterp spec fn cursor_at(c: tree_sitter::TreeCursor<'_>) -> int;

/// Pre-order: the root stands first and alone at its depth, and a node is at most one level deeper
/// than the one before it.
pub open spec fn preordered(raw: Seq<RawView>) -> bool {
    &&& raw.len() > 0
    &&& raw[0].depth == 0
    &&& forall|i: int| 0 < i < raw.len() ==> 1 <= (#[trigger] raw[i]).depth <= raw[i - 1].depth + 1
}

/// Source order: a node ends no earlier than it starts, and what follows its subtree starts no
/// earlier than it ends.
pub open spec fn source_ordered(raw: Seq<RawView>) -> bool {
    &&& forall|i: int| 0 <= i < raw.len() ==> (#[trigger] raw[i]).start <= raw[i].end
    &&& forall|i: int, j: int|
        0 <= i && after_from(raw, i, i + 1) <= j < raw.len() ==> (#[trigger] raw[i]).end <= (#[trigger] raw[j]).start
}

/// `tree_sitter::Parser::parse` with the grammar of `lang`: the tree is a function of the grammar
/// and the text, and there is none where the grammar cannot be loaded. Its nodes are in pre-order,
/// and in source order where the bytes of the text can be counted in 32 bits.
#[verifier::external_body]
fn parse_source(lang: Language, src: &str) -> (r: Option<tree_sitter::Tree>)
    ensures
        r == tree_of(lang, src@),
        r matches Some(t) ==> preordered(tree_nodes(t, src@)),
        r matches Some(t) ==> (vstd::utf8::encode_utf8(src@).len() <= u32::MAX ==> source_ordered(tree_nodes(t, src@))),
{
    let grammar = match lang {
        Language::Rust => tree_sitter_rust::LANGUAGE,
        Language::Python => tree_sitter_python::LANGUAGE,
        Language::TypeScript => tree_sitter_typescript::LANGUAGE_TYPESCRIPT,
        Language::Tsx => tree_sitter_typescript::LANGUAGE_TSX,
        Language::JavaScript => tree_sitter_javascript::LANGUAGE,
    };
    let mut parser = tree_sitter::Parser::new();
    parser.set_language(&grammar.into()).ok()?;
    parser.parse(src, None)
}

/// `tree_sitter::Tree::walk`: a cursor at the root of the tree.
#[verifier::external_body]
fn start(tree: &tree_sitter::Tree) -> (r: tree_sitter::TreeCursor<'_>)
    ensures
        cursor_tree(r) == *tree,
        cursor_at(r) == 0,
{
    tree.walk()
}

/// A cursor over the tree of a source.
struct Walk<'a> {
    cursor: tree_sitter::TreeCursor<'a>,
    src: &'a str,
}

impl<'a> Walk<'a> {
    /// The nodes it walks.
    spec fn nodes(&self) -> Seq<RawView> {
        tree_nodes(cursor_tree(self.cursor), self.src@)
    }

    /// The node it stands at.
    spec fn at(&self) -> int {
        cursor_at(self.cursor)
    }

    /// The tree is one of the source, its nodes are in pre-order, and the cursor stands at one.
    spec fn ok(&self) -> bool {
        &&& exists|lang: Language| #[trigger] tree_of(lang, self.src@) == Some(cursor_tree(self.cursor))
        &&& preordered(self.nodes())
        &&& 0 <= self.at() < self.nodes().len()
    }

    /// Only its place has changed.
    spec fn moved(&self, was: &Self) -> bool {
        self.src == was.src && cursor_tree(self.cursor) == cursor_tree(was.cursor)
    }
}

/// The node a cursor stands at: `tree_sitter::TreeCursor::node`, `field_name` and `depth`, and of the
/// node `kind`, `is_named`, `range` and `utf8_text`, with the empty text where the bytes are not UTF-8.
#[verifier::external_body]
fn current(w: &Walk<'_>) -> (r: RawNode)
    requires
        w.ok(),
    ensures
        r.deep_view() == tree_nodes(cursor_tree(w.cursor), w.src@)[cursor_at(w.cursor)],
{
    let (n, r) = (w.cursor.node(), w.cursor.node().range());
    RawNode {
        kind: n.kind().into(), field: w.cursor.field_name().unwrap_or_default().into(), named: n.is_named(),
        start: r.start_byte, end: r.end_byte, row: r.start_point.row, end_row: r.end_point.row,
        depth: w.cursor.depth() as usize, text: n.utf8_text(w.src.as_bytes()).unwrap_or_default().into(),
    }
}

/// `tree_sitter::TreeCursor::goto_first_child`: to the next node in pre-order, where that is deeper.
#[verifier::external_body]
fn down(w: &mut Walk<'_>) -> (r: bool)
    requires
        old(w).ok(),
    ensures
        final(w).moved(old(w)),
        ({
            let raw = old(w).nodes();
            let i = old(w).at();
            &&& r == (i + 1 < raw.len() && raw[i + 1].depth > raw[i].depth)
            &&& final(w).at() == (if r {
                i + 1
            } else {
                i
            })
        }),
{
    w.cursor.goto_first_child()
}

/// `tree_sitter::TreeCursor::goto_next_sibling`: to the node after the subtree, where that is no
/// higher.
#[verifier::external_body]
fn along(w: &mut Walk<'_>) -> (r: bool)
    requires
        old(w).ok(),
    ensures
        final(w).moved(old(w)),
        ({
            let raw = old(w).nodes();
            let i = old(w).at();
            let j = after_from(raw, i, i + 1);
            &&& r == (j < raw.len() && raw[j].depth == raw[i].depth)
            &&& final(w).at() == (if r {
                j
            } else {
                i
            })
        }),
{
    w.cursor.goto_next_sibling()
}

/// `tree_sitter::TreeCursor::goto_parent`: from any node but the root, to the last node before it
/// that is higher, by one level.
#[verifier::external_body]
fn up(w: &mut Walk<'_>) -> (r: bool)
    requires
        old(w).ok(),
    ensures
        final(w).moved(old(w)),
        r == (old(w).at() > 0),
        !r ==> final(w).at() == old(w).at(),
        r ==> ({
            let raw = old(w).nodes();
            let i = old(w).at();
            let p = final(w).at();
            &&& 0 <= p < i
            &&& raw[p].depth + 1 == raw[i].depth
            &&& forall|k: int| p < k < i ==> (#[trigger] raw[k]).depth >= raw[i].depth
        }),
{
    w.cursor.goto_parent()
}

// ---------- the walk ----------

/// The end of a subtree is the first node from `j` on that is no deeper.
pub proof fn after_is_first(raw: Seq<RawView>, i: int, j: int)
    requires
        0 <= i < j <= raw.len(),
    ensures
        j <= after_from(raw, i, j) <= raw.len(),
        after_from(raw, i, j) < raw.len() ==> raw[after_from(raw, i, j)].depth <= raw[i].depth,
        forall|k: int| j <= k < after_from(raw, i, j) ==> (#[trigger] raw[k]).depth > raw[i].depth,
    decreases raw.len() - j,
{
    if j < raw.len() && raw[j].depth > raw[i].depth {
        after_is_first(raw, i, j + 1);
    }
}

proof fn after_is(raw: Seq<RawView>, i: int, j: int, m: int)
    requires
        0 <= i < j <= m <= raw.len(),
        m < raw.len() ==> raw[m].depth <= raw[i].depth,
        forall|k: int| j <= k < m ==> (#[trigger] raw[k]).depth > raw[i].depth,
    ensures
        after_from(raw, i, j) == m,
{
    after_is_first(raw, i, j);
    let e = after_from(raw, i, j);
    if e < m {
        assert(raw[e].depth > raw[i].depth);
    }
    if m < e {
        assert(raw[m].depth > raw[i].depth);
    }
}

fn advance(w: &mut Walk<'_>) -> (r: bool)
    requires
        old(w).ok(),
    ensures
        final(w).ok(),
        final(w).moved(old(w)),
        r == (old(w).at() + 1 < old(w).nodes().len()),
        r ==> final(w).at() == old(w).at() + 1,
{
    let ghost raw = w.nodes();
    let ghost first = w.at();
    if down(w) {
        return true;
    }
    assert(after_from(raw, first, first + 1) == first + 1) by {
        after_is(raw, first, first + 1, first + 1);
    }
    loop
        invariant
            w.ok(),
            w.moved(old(w)),
            raw == w.nodes(),
            raw == old(w).nodes(),
            first == old(w).at(),
            0 <= w.at() <= first < raw.len(),
            after_from(raw, w.at(), w.at() + 1) == first + 1,
        decreases w.at(),
    {
        let ghost here = w.at();
        proof {
            after_is_first(raw, here, here + 1);
        }
        if along(w) {
            return true;
        }
        if !up(w) {
            proof {
                if first + 1 < raw.len() {
                    assert(raw[first + 1].depth >= 1);
                }
            }
            return false;
        }
        proof {
            let p = w.at();
            assert forall|k: int| p + 1 <= k < first + 1 implies (#[trigger] raw[k]).depth > raw[p].depth by {
                if k < here {
                    assert(raw[k].depth >= raw[here].depth);
                } else if k > here {
                    assert(raw[k].depth > raw[here].depth);
                }
            }
            after_is(raw, p, p + 1, first + 1);
        }
    }
}

/// The nodes that the grammar of `lang` makes of `src`, in pre-order.
pub open spec fn parsed(lang: Language, src: Chars) -> Option<Seq<RawView>> {
    match tree_of(lang, src) {
        Some(t) => Some(tree_nodes(t, src)),
        None => None,
    }
}

/// The nodes that the grammar of `lang` makes of `src`, in pre-order.
pub(crate) fn read_source(lang: Language, src: &str) -> (r: Option<Vec<RawNode>>)
    ensures
        r.deep_view() == parsed(lang, src@),
        r matches Some(list) ==> preordered(list.deep_view()),
        r matches Some(list) ==> (vstd::utf8::encode_utf8(src@).len() <= u32::MAX ==> source_ordered(list.deep_view())),
{
    let tree = match parse_source(lang, src) {
        Some(t) => t,
        None => {
            return None;
        },
    };
    let ghost raw = tree_nodes(tree, src@);
    let mut out: Vec<RawNode> = Vec::new();
    let mut w = Walk { cursor: start(&tree), src };
    assert(tree_of(lang, w.src@) == Some(cursor_tree(w.cursor)));
    assert(out.deep_view() =~= raw.take(0));
    let mut more: bool = true;
    while more
        invariant
            w.ok(),
            w.nodes() == raw,
            more ==> out.deep_view() == raw.take(w.at()),
            !more ==> out.deep_view() == raw,
        decreases raw.len() - out.deep_view().len(),
    {
        let ghost i = w.at();
        put(&mut out, current(&w));
        assert(out.deep_view() =~= raw.take(i + 1));
        more = advance(&mut w);
        assert(raw.take(raw.len() as int) =~= raw);
    }
    Some(out)
}

} // verus!
