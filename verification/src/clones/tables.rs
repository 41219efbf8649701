//! Tables: containers whose entries have one shape.

use vstd::prelude::*;
use vstd::std_specs::hash::DefaultHasherAdditionalSpecFns;
use std::collections::hash_map::DefaultHasher;
use std::hash::Hasher;

use crate::clones::tokens::{comment_kind, is_number_kind, is_string_kind, number_kind, string_kind};
use crate::config::Clones;
use crate::lang::Language;
use crate::text::{contains as has_text, holds, list_has, put, same, Chars};
use crate::tree::{child_of, Nodes, SyntaxTree};

verus! {

/// Shares of a whole, in millionths.
#[derive(Clone, Copy)]
pub struct Shares {
    /// What a child spans of a range to stand for it.
    pub child: usize,
    /// What the most common shape covers of a table's entries.
    pub shape: usize,
}

/// `part` is at least `share` millionths of `whole`.
pub open spec fn enough(part: nat, whole: nat, share: usize) -> bool {
    part * 1000000 >= share * whole
}

/// Is `part` at least `share` millionths of `whole`?
pub fn is_enough(part: usize, whole: usize, share: usize) -> (r: bool)
    ensures
        r == enough(part as nat, whole as nat, share),
{
    assert(part * 1000000 <= u128::MAX) by (nonlinear_arith)
        requires
            part <= u64::MAX,
    ;
    assert(0 <= share * whole <= u128::MAX) by (nonlinear_arith)
        requires
            0 <= share <= u64::MAX,
            0 <= whole <= u64::MAX,
    ;
    part as u128 * 1000000 >= share as u128 * whole as u128
}

/// What stands between two entries without being one: comments, and Rust outer attributes, which the
/// grammar keeps as siblings of the item they decorate.
pub open spec fn transparent(k: Chars) -> bool {
    comment_kind(k) || k == "attribute_item"@
}

fn is_transparent(k: &str) -> (r: bool)
    ensures
        r == transparent(k@),
{
    same(k, "comment") || same(k, "line_comment") || same(k, "block_comment") || same(k, "attribute_item")
}

// ---------- ranges ----------

/// The larger of two.
pub open spec fn more_of(a: usize, b: usize) -> usize {
    if a >= b {
        a
    } else {
        b
    }
}

/// The smaller of two.
pub open spec fn less_of(a: usize, b: usize) -> usize {
    if a <= b {
        a
    } else {
        b
    }
}

/// How many bytes two ranges share.
pub open spec fn common_bytes(s1: usize, e1: usize, s2: usize, e2: usize) -> nat {
    let lo = more_of(s1, s2);
    let hi = less_of(e1, e2);
    if hi > lo {
        (hi - lo) as nat
    } else {
        0
    }
}

/// The length of a range.
pub open spec fn span(s: usize, e: usize) -> nat {
    if e > s {
        (e - s) as nat
    } else {
        0
    }
}

fn shared_bytes(s1: usize, e1: usize, s2: usize, e2: usize) -> (n: usize)
    ensures
        n == common_bytes(s1, e1, s2, e2),
{
    let lo: usize = if s1 >= s2 {
        s1
    } else {
        s2
    };
    let hi: usize = if e1 <= e2 {
        e1
    } else {
        e2
    };
    if hi > lo {
        hi - lo
    } else {
        0
    }
}

fn length(s: usize, e: usize) -> (n: usize)
    ensures
        n == span(s, e),
{
    if e > s {
        e - s
    } else {
        0
    }
}

/// A named child that stands under a range.
pub open spec fn in_range(t: Nodes, c: int, s: usize, e: usize) -> bool {
    t[c].named && s < t[c].end && t[c].start < e
}

/// A child spans enough of a range.
pub open spec fn dominates(t: Nodes, c: int, s: usize, e: usize, share: usize) -> bool {
    enough(common_bytes(t[c].start, t[c].end, s, e), span(s, e), share)
}

/// The entries of a node under a range: its named children but those that stand between entries.
pub open spec fn under_range(t: Nodes, kids: Seq<usize>, s: usize, e: usize) -> Seq<usize>
    decreases kids.len(),
{
    if kids.len() == 0 {
        Seq::empty()
    } else {
        let before = under_range(t, kids.drop_last(), s, e);
        let c = kids.last();
        if in_range(t, c as int, s, e) && !transparent(t[c as int].kind) {
            before.push(c)
        } else {
            before
        }
    }
}

/// The first child, from `k` on, that spans enough of a range.
pub open spec fn dominant_from(t: Nodes, kids: Seq<usize>, s: usize, e: usize, share: usize, k: int) -> Option<usize>
    decreases kids.len() - k,
{
    if k < 0 || k >= kids.len() {
        None
    } else if in_range(t, kids[k] as int, s, e) && dominates(t, kids[k] as int, s, e, share) {
        Some(kids[k])
    } else {
        dominant_from(t, kids, s, e, share, k + 1)
    }
}

/// One node on a range's chain with its entries under the range.
pub struct Level {
    pub node: usize,
    pub kids: Vec<usize>,
}

/// A [`Level`] by its contents.
pub struct LevelView {
    pub node: usize,
    pub kids: Seq<usize>,
}

impl DeepView for Level {
    type V = LevelView;

    open spec fn deep_view(&self) -> LevelView {
        LevelView { node: self.node, kids: self.kids@ }
    }
}

/// The chain from node `n` down to the node a byte range belongs to: on into any child that spans
/// enough of its bytes. A run bleeds a few tokens past an item's boundary (its neighbour's closing
/// brace); the bleed must not lift a range out of its own item, while the halves of one container
/// have no dominant child.
pub open spec fn chain_from(t: Nodes, n: int, s: usize, e: usize, share: usize) -> Seq<LevelView>
    decreases t.len() - n,
{
    if n < 0 || n >= t.len() {
        Seq::empty()
    } else {
        seq![LevelView { node: n as usize, kids: under_range(t, t[n].children, s, e) }] + (match dominant_from(
            t,
            t[n].children,
            s,
            e,
            share,
            0,
        ) {
            Some(c) => if n < c < t.len() {
                chain_from(t, c as int, s, e, share)
            } else {
                Seq::empty()
            },
            None => Seq::empty(),
        })
    }
}

/// Every node of a chain is a node of the tree.
pub open spec fn chain_ok(t: Nodes, chain: Seq<LevelView>) -> bool {
    forall|i: int|
        0 <= i < chain.len() ==> (#[trigger] chain[i]).node < t.len() && forall|k: int|
            0 <= k < chain[i].kids.len() ==> (#[trigger] chain[i].kids[k]) < t.len()
}

fn level_at(t: &SyntaxTree, n: usize, s: usize, e: usize, share: usize) -> (r: (Level, Option<usize>))
    requires
        t.ok(),
        n < t@.len(),
    ensures
        r.0.deep_view() == (LevelView { node: n, kids: under_range(t@, t@[n as int].children, s, e) }),
        r.1 == dominant_from(t@, t@[n as int].children, s, e, share, 0),
        r.1 matches Some(c) ==> n < c < t@.len(),
        forall|k: int| 0 <= k < r.0.kids.len() ==> #[trigger] r.0.kids@[k] < t@.len(),
{
    let all = &t.nodes[n].children;
    assert(t@[n as int] == t.nodes@[n as int].deep_view());
    assert(crate::tree::node_ok(t@, n as int));
    let mut kids: Vec<usize> = Vec::new();
    let mut next: Option<usize> = None;
    let mut k: usize = 0;
    assert(all@.take(0) =~= Seq::<usize>::empty());
    assert(kids@ =~= Seq::<usize>::empty());
    let whole: usize = length(s, e);
    while k < all.len()
        invariant
            k <= all.len(),
            t.ok(),
            n < t@.len(),
            all@ == t@[n as int].children,
            crate::tree::node_ok(t@, n as int),
            whole == span(s, e),
            kids@ == under_range(t@, all@.take(k as int), s, e),
            dominant_from(t@, all@, s, e, share, 0) == (if next is Some {
                next
            } else {
                dominant_from(t@, all@, s, e, share, k as int)
            }),
            next matches Some(c) ==> n < c < t@.len(),
            forall|k: int| 0 <= k < kids.len() ==> #[trigger] kids@[k] < t@.len(),
        decreases all.len() - k,
    {
        assert(all@.take(k + 1).drop_last() =~= all@.take(k as int));
        assert(n < t@[n as int].children[k as int] < t@.len());
        let c: usize = all[k];
        let x = &t.nodes[c];
        assert(t@[c as int] == x.deep_view());
        if x.named && s < x.end && x.start < e {
            if !is_transparent(x.kind.as_str()) {
                kids.push(c);
            }
            if next.is_none() && is_enough(shared_bytes(x.start, x.end, s, e), whole, share) {
                next = Some(c);
            }
        }
        k = k + 1;
    }
    assert(all@.take(all@.len() as int) =~= all@);
    (Level { node: n, kids }, next)
}

/// The chain of the node a byte range belongs to, from the root down.
pub fn resolve(t: &SyntaxTree, s: usize, e: usize, share: usize) -> (out: Vec<Level>)
    requires
        t.ok(),
    ensures
        out.deep_view() == chain_from(t@, 0, s, e, share),
        chain_ok(t@, out.deep_view()),
{
    let mut out: Vec<Level> = Vec::new();
    assert(out.deep_view() =~= Seq::<LevelView>::empty());
    if t.len() == 0 {
        return out;
    }
    let mut n: usize = 0;
    assert(out.deep_view() + chain_from(t@, 0, s, e, share) =~= chain_from(t@, 0, s, e, share));
    loop
        invariant
            t.ok(),
            n < t@.len(),
            chain_ok(t@, out.deep_view()),
            chain_from(t@, 0, s, e, share) == out.deep_view() + chain_from(t@, n as int, s, e, share),
        decreases t@.len() - n,
    {
        let ghost was = out.deep_view();
        let (level, next) = level_at(t, n, s, e, share);
        let ghost x = level.deep_view();
        put(&mut out, level);
        proof {
            assert(out.deep_view() =~= was.push(x));
            assert forall|i: int| 0 <= i < out.deep_view().len() implies (#[trigger] out.deep_view()[i]).node < t@.len()
                && forall|k: int|
                0 <= k < out.deep_view()[i].kids.len() ==> (#[trigger] out.deep_view()[i].kids[k]) < t@.len() by {
                if i < was.len() {
                    assert(out.deep_view()[i] == was[i]);
                }
            }
        }
        match next {
            Some(c) => {
                proof {
                    let rest = chain_from(t@, c as int, s, e, share);
                    assert(was + (seq![x] + rest) =~= out.deep_view() + rest);
                }
                n = c;
            },
            None => {
                assert(was + (seq![x] + Seq::<LevelView>::empty()) =~= out.deep_view());
                return out;
            },
        }
    }
}

// ---------- entries ----------

/// Entry kind fixed by the container: arms under a match block, cases under a switch body or a
/// `match` statement's block.
pub open spec fn fixed_kind(t: Nodes, chain: Seq<LevelView>, i: int) -> Option<Chars> {
    let k = t[chain[i].node as int].kind;
    if k == "match_block"@ {
        Some("match_arm"@)
    } else if k == "switch_body"@ {
        Some("switch_case"@)
    } else if k == "block"@ && i > 0 && t[chain[i - 1].node as int].kind == "match_statement"@ {
        Some("case_clause"@)
    } else {
        None
    }
}

/// How many of `kids` have a kind.
pub open spec fn kind_count(t: Nodes, kids: Seq<usize>, k: Chars) -> nat
    decreases kids.len(),
{
    if kids.len() == 0 {
        0
    } else {
        kind_count(t, kids.drop_last(), k) + (if t[kids.last() as int].kind == k {
            1nat
        } else {
            0nat
        })
    }
}

/// The most common kind that the first `n` of `kids` bring in; of equally common ones the one met
/// last.
pub open spec fn commonest(t: Nodes, kids: Seq<usize>, n: int) -> Option<Chars>
    decreases n,
{
    if n <= 0 {
        None
    } else {
        let best = commonest(t, kids, n - 1);
        let k = t[kids[n - 1] as int].kind;
        if kind_count(t, kids.take(n - 1), k) > 0 {
            best
        } else {
            match best {
                Some(b) => if kind_count(t, kids, k) >= kind_count(t, kids, b) {
                    Some(k)
                } else {
                    best
                },
                None => Some(k),
            }
        }
    }
}

/// The kind of the entries of level `i`.
pub open spec fn entry_kind(t: Nodes, chain: Seq<LevelView>, i: int) -> Chars {
    let kids = chain[i].kids;
    let common = match commonest(t, kids, kids.len() as int) {
        Some(k) => k,
        None => Seq::empty(),
    };
    match fixed_kind(t, chain, i) {
        Some(k) => if kind_count(t, kids, k) > 0 {
            k
        } else {
            common
        },
        None => common,
    }
}

/// The longest stretch of entries of a kind, from child `k` on: `best` is the longest so far and
/// `run` the one that is open.
pub open spec fn stretch_from(t: Nodes, kids: Seq<usize>, kind: Chars, k: int, best: Seq<usize>, run: Seq<usize>) -> Seq<usize>
    decreases kids.len() - k,
{
    let longer = if run.len() > best.len() {
        run
    } else {
        best
    };
    if k < 0 || k >= kids.len() {
        longer
    } else if t[kids[k] as int].kind == kind {
        stretch_from(t, kids, kind, k + 1, best, run.push(kids[k]))
    } else {
        stretch_from(t, kids, kind, k + 1, longer, Seq::empty())
    }
}

/// The longest stretch of consecutive same-kind entries of level `i` under the range, when it has at
/// least `min` of them.
pub open spec fn entries_of(t: Nodes, chain: Seq<LevelView>, i: int, min: usize) -> Option<Seq<usize>> {
    let kids = chain[i].kids;
    let best = stretch_from(t, kids, entry_kind(t, chain, i), 0, Seq::empty(), Seq::empty());
    let least = if min == 0 {
        1
    } else {
        min
    };
    if kids.len() < least || best.len() < least {
        None
    } else {
        Some(best)
    }
}

fn fixed_entry_kind(t: &SyntaxTree, chain: &Vec<Level>, i: usize) -> (r: Option<String>)
    requires
        i < chain.len(),
        chain_ok(t@, chain.deep_view()),
    ensures
        r.deep_view() == fixed_kind(t@, chain.deep_view(), i as int),
{
    let ghost cv = chain.deep_view();
    assert(cv[i as int] == chain@[i as int].deep_view());
    let n: usize = chain[i].node;
    if t.is(n, "match_block") {
        Some("match_arm".to_owned())
    } else if t.is(n, "switch_body") {
        Some("switch_case".to_owned())
    } else if t.is(n, "block") && i > 0 {
        assert(cv[i - 1] == chain@[i - 1].deep_view());
        if t.is(chain[i - 1].node, "match_statement") {
            Some("case_clause".to_owned())
        } else {
            None
        }
    } else {
        None
    }
}

fn count_kind(t: &SyntaxTree, kids: &Vec<usize>, n: usize, k: &str) -> (r: usize)
    requires
        n <= kids.len(),
        forall|i: int| 0 <= i < kids.len() ==> #[trigger] kids@[i] < t@.len(),
    ensures
        r == kind_count(t@, kids@.take(n as int), k@),
{
    let mut r: usize = 0;
    let mut i: usize = 0;
    assert(kids@.take(0) =~= Seq::<usize>::empty());
    while i < n
        invariant
            i <= n <= kids.len(),
            r <= i,
            forall|i: int| 0 <= i < kids.len() ==> #[trigger] kids@[i] < t@.len(),
            r == kind_count(t@, kids@.take(i as int), k@),
        decreases n - i,
    {
        assert(kids@.take(i + 1).drop_last() =~= kids@.take(i as int));
        assert(kids@[i as int] < t@.len());
        if t.is(kids[i], k) {
            r = r + 1;
        }
        i = i + 1;
    }
    r
}

fn most_common(t: &SyntaxTree, kids: &Vec<usize>) -> (r: Option<String>)
    requires
        forall|i: int| 0 <= i < kids.len() ==> #[trigger] kids@[i] < t@.len(),
    ensures
        r.deep_view() == commonest(t@, kids@, kids.len() as int),
{
    let mut best: Option<String> = None;
    let mut n: usize = 0;
    assert(kids@.take(kids@.len() as int) =~= kids@);
    while n < kids.len()
        invariant
            n <= kids.len(),
            kids@.take(kids@.len() as int) == kids@,
            forall|i: int| 0 <= i < kids.len() ==> #[trigger] kids@[i] < t@.len(),
            best.deep_view() == commonest(t@, kids@, n as int),
        decreases kids.len() - n,
    {
        assert(kids@[n as int] < t@.len());
        let k = t.kind(kids[n]);
        if count_kind(t, kids, n, k) == 0 {
            let better = match &best {
                Some(b) => count_kind(t, kids, kids.len(), k) >= count_kind(t, kids, kids.len(), b.as_str()),
                None => true,
            };
            if better {
                best = Some(k.to_owned());
            }
        }
        n = n + 1;
    }
    best
}

fn kind_of_entries(t: &SyntaxTree, chain: &Vec<Level>, i: usize) -> (r: String)
    requires
        i < chain.len(),
        chain_ok(t@, chain.deep_view()),
    ensures
        r@ == entry_kind(t@, chain.deep_view(), i as int),
{
    let ghost cv = chain.deep_view();
    assert(cv[i as int] == chain@[i as int].deep_view());
    let kids = &chain[i].kids;
    assert forall|j: int| 0 <= j < kids.len() implies #[trigger] kids@[j] < t@.len() by {
        assert(cv[i as int].kids[j] < t@.len());
    }
    assert(kids@.take(kids@.len() as int) =~= kids@);
    if let Some(k) = fixed_entry_kind(t, chain, i) {
        if count_kind(t, kids, kids.len(), k.as_str()) > 0 {
            return k;
        }
    }
    match most_common(t, kids) {
        Some(k) => k,
        None => {
            let none = String::new();
            assert(none@ =~= Seq::<char>::empty());
            none
        },
    }
}

/// The longest stretch of consecutive same-kind entries of level `i` under the range, when it has at
/// least `min` of them.
pub fn table_entries(t: &SyntaxTree, chain: &Vec<Level>, i: usize, min: usize) -> (r: Option<Vec<usize>>)
    requires
        i < chain.len(),
        chain_ok(t@, chain.deep_view()),
    ensures
        (match r {
            Some(v) => Some(v@),
            None => None,
        }) == entries_of(t@, chain.deep_view(), i as int, min),
        r matches Some(v) ==> v.len() > 0 && forall|k: int| 0 <= k < v.len() ==> #[trigger] v@[k] < t@.len(),
{
    let ghost cv = chain.deep_view();
    assert(cv[i as int] == chain@[i as int].deep_view());
    let kids = &chain[i].kids;
    assert forall|j: int| 0 <= j < kids.len() implies #[trigger] kids@[j] < t@.len() by {
        assert(cv[i as int].kids[j] < t@.len());
    }
    let least: usize = if min == 0 {
        1
    } else {
        min
    };
    if kids.len() < least {
        return None;
    }
    let kind = kind_of_entries(t, chain, i);
    let ghost whole = stretch_from(t@, kids@, kind@, 0, Seq::empty(), Seq::empty());
    let mut best: Vec<usize> = Vec::new();
    let mut run: Vec<usize> = Vec::new();
    assert(best@ =~= Seq::<usize>::empty());
    assert(run@ =~= Seq::<usize>::empty());
    let mut k: usize = 0;
    while k < kids.len()
        invariant
            k <= kids.len(),
            forall|i: int| 0 <= i < kids.len() ==> #[trigger] kids@[i] < t@.len(),
            forall|i: int| 0 <= i < best.len() ==> #[trigger] best@[i] < t@.len(),
            forall|i: int| 0 <= i < run.len() ==> #[trigger] run@[i] < t@.len(),
            whole == stretch_from(t@, kids@, kind@, k as int, best@, run@),
        decreases kids.len() - k,
    {
        assert(kids@[k as int] < t@.len());
        let c: usize = kids[k];
        if t.is(c, kind.as_str()) {
            run.push(c);
        } else {
            if run.len() > best.len() {
                best = run;
            }
            run = Vec::new();
            assert(run@ =~= Seq::<usize>::empty());
        }
        k = k + 1;
    }
    if run.len() > best.len() {
        best = run;
    }
    if best.len() >= least {
        Some(best)
    } else {
        None
    }
}

// ---------- shapes ----------

/// Nodes that are one leaf of a shape: names, paths and literals vary between the entries of one
/// table; structure does not.
pub open spec fn leaf_class(k: Chars) -> Option<Chars> {
    if string_kind(k) || k == "string_content"@ || k == "string_fragment"@ {
        Some("STR"@)
    } else if number_kind(k) || k == "boolean_literal"@ {
        Some("NUM"@)
    } else if holds(k, "identifier"@) || k == "self"@ || k == "attribute"@ || k == "member_expression"@ || k
        == "field_expression"@ || k == "dotted_name"@ || k == "generic_type"@ || k == "primitive_type"@ {
        Some("ID"@)
    } else {
        None
    }
}

fn skeleton_leaf(k: &str) -> (r: Option<&'static str>)
    ensures
        (match r {
            Some(x) => Some(x@),
            None => None,
        }) == leaf_class(k@),
{
    if is_string_kind(k) || same(k, "string_content") || same(k, "string_fragment") {
        Some("STR")
    } else if is_number_kind(k) || same(k, "boolean_literal") {
        Some("NUM")
    } else if has_text(k, "identifier") || same(k, "self") || same(k, "attribute") || same(k, "member_expression") || same(
        k,
        "field_expression",
    ) || same(k, "dotted_name") || same(k, "generic_type") || same(k, "primitive_type") {
        Some("ID")
    } else {
        None
    }
}

/// How deep node `j` stands below `entry`.
pub open spec fn depth_below(t: Nodes, j: int, entry: int) -> nat
    decreases j,
{
    if j <= entry || j >= t.len() {
        0
    } else {
        match t[j].parent {
            Some(p) => if p < j {
                1 + depth_below(t, p as int, entry)
            } else {
                0
            },
            None => 0,
        }
    }
}

/// The shape of an entry as far as it has been walked.
pub struct ShapeView {
    pub writes: Seq<Seq<u8>>,
    pub nodes: nat,
    pub control: bool,
}

/// The bytes of a depth.
pub open spec fn depth_bytes(n: nat) -> Seq<u8> {
    vstd::bytes::spec_u64_to_le_bytes(n as u64)
}

/// The shape of the nodes from `j` to `end`: named nodes only, leaves collapsed. It stops as soon as
/// there are more than `max` nodes: an entry that large is no table row.
pub open spec fn shape_from(
    t: Nodes,
    entry: int,
    j: int,
    end: int,
    max: usize,
    control: Seq<Chars>,
    s: ShapeView,
) -> ShapeView
    decreases t.len() - j,
{
    if j < 0 || j >= end || end > t.len() {
        s
    } else {
        let k = t[j].kind;
        let after = t[j].after as int;
        if !t[j].named || (transparent(k) && j != entry) {
            if j < after <= t.len() {
                shape_from(t, entry, after, end, max, control, s)
            } else {
                s
            }
        } else if s.nodes + 1 > max {
            ShapeView { nodes: s.nodes + 1, ..s }
        } else {
            let leaf = leaf_class(k);
            let next = ShapeView {
                writes: s.writes.push(depth_bytes(depth_below(t, j, entry))).push(
                    vstd::utf8::encode_utf8(
                        match leaf {
                            Some(c) => c,
                            None => k,
                        },
                    ),
                ),
                nodes: s.nodes + 1,
                control: s.control || control.contains(k),
            };
            if leaf is Some {
                if j < after <= t.len() {
                    shape_from(t, entry, after, end, max, control, next)
                } else {
                    next
                }
            } else {
                shape_from(t, entry, j + 1, end, max, control, next)
            }
        }
    }
}

/// The shape of an entry.
pub open spec fn shape_of(t: Nodes, entry: usize, max: usize, control: Seq<Chars>) -> ShapeView {
    shape_from(
        t,
        entry as int,
        entry as int,
        t[entry as int].after as int,
        max,
        control,
        ShapeView { writes: Seq::empty(), nodes: 0, control: false },
    )
}

/// The shape of a row that a table may have: no control flow, and not too large.
pub open spec fn row_shape(t: Nodes, entry: usize, max: usize, control: Seq<Chars>) -> Option<u64> {
    let s = shape_of(t, entry, max, control);
    if s.control || s.nodes > max {
        None
    } else {
        Some(DefaultHasher::spec_finish(s.writes))
    }
}

/// The shapes of entries, where all of them may be rows.
pub open spec fn row_shapes(t: Nodes, entries: Seq<usize>, max: usize, control: Seq<Chars>) -> Option<Seq<u64>>
    decreases entries.len(),
{
    if entries.len() == 0 {
        Some(Seq::empty())
    } else {
        match (row_shapes(t, entries.drop_last(), max, control), row_shape(t, entries.last(), max, control)) {
            (Some(s), Some(h)) => Some(s.push(h)),
            _ => None,
        }
    }
}

/// How often a hash occurs.
pub open spec fn hash_count(s: Seq<u64>, h: u64) -> nat
    decreases s.len(),
{
    if s.len() == 0 {
        0
    } else {
        hash_count(s.drop_last(), h) + (if s.last() == h {
            1nat
        } else {
            0nat
        })
    }
}

/// How often the most common of the first `n` hashes occurs.
pub open spec fn most_often(s: Seq<u64>, n: int) -> nat
    decreases n,
{
    if n <= 0 {
        0
    } else {
        let before = most_often(s, n - 1);
        let c = hash_count(s, s[n - 1]);
        if c > before {
            c
        } else {
            before
        }
    }
}

/// Entries are uniform when the most common shape covers enough of them and each may be a row.
pub open spec fn uniform(t: Nodes, entries: Seq<usize>, cfg: Clones, control: Seq<Chars>, shares: Shares) -> bool {
    match row_shapes(t, entries, cfg.table_max_entry_nodes, control) {
        Some(s) => enough(most_often(s, s.len() as int), entries.len(), shares.shape),
        None => false,
    }
}

fn depth_of(t: &SyntaxTree, j: usize, entry: usize) -> (n: usize)
    requires
        t.ok(),
        j < t@.len(),
    ensures
        n == depth_below(t@, j as int, entry as int),
        n <= j,
    decreases j,
{
    if j <= entry {
        return 0;
    }
    match t.parent(j) {
        Some(p) => {
            assert(crate::tree::node_ok(t@, j as int));
            1 + depth_of(t, p, entry)
        },
        None => 0,
    }
}

/// The shape of a row: its hash, or none where a table has no such row.
fn shape(t: &SyntaxTree, entry: usize, max: usize, control: &Vec<String>) -> (r: Option<u64>)
    requires
        t.ok(),
        entry < t@.len(),
    ensures
        r == row_shape(t@, entry, max, control.deep_view()),
{
    let ghost cv = control.deep_view();
    let ghost whole = shape_of(t@, entry, max, cv);
    assert(crate::tree::node_ok(t@, entry as int));
    assert(t@[entry as int] == t.nodes@[entry as int].deep_view());
    let end: usize = t.nodes[entry].after;
    let mut h = DefaultHasher::new();
    let mut nodes: usize = 0;
    let mut flow = false;
    let mut j: usize = entry;
    while j < end
        invariant
            entry <= j,
            end <= t@.len(),
            entry < t@.len(),
            t.ok(),
            cv == control.deep_view(),
            nodes <= j - entry,
            nodes <= max,
            whole == shape_of(t@, entry, max, cv),
            whole == shape_from(
                t@,
                entry as int,
                j as int,
                end as int,
                max,
                cv,
                ShapeView { writes: h@, nodes: nodes as nat, control: flow },
            ),
        decreases t@.len() - j,
    {
        assert(crate::tree::node_ok(t@, j as int));
        assert(t@[j as int] == t.nodes@[j as int].deep_view());
        let n = &t.nodes[j];
        let k = n.kind.as_str();
        if !n.named || (j != entry && is_transparent(k)) {
            j = n.after;
        } else if nodes == max {
            return None;
        } else {
            let leaf = skeleton_leaf(k);
            let d: usize = depth_of(t, j, entry);
            let bytes = vstd::bytes::u64_to_le_bytes(d as u64);
            h.write(bytes.as_slice());
            match leaf {
                Some(c) => h.write(c.as_bytes()),
                None => h.write(k.as_bytes()),
            }
            nodes = nodes + 1;
            if list_has(control, k) {
                flow = true;
            }
            if leaf.is_some() {
                j = n.after;
            } else {
                j = j + 1;
            }
        }
    }
    if flow {
        None
    } else {
        Some(h.finish())
    }
}

fn count_hash(s: &Vec<u64>, h: u64) -> (n: usize)
    ensures
        n == hash_count(s@, h),
{
    let mut n: usize = 0;
    let mut k: usize = 0;
    assert(s@.take(0) =~= Seq::<u64>::empty());
    while k < s.len()
        invariant
            k <= s.len(),
            n <= k,
            n == hash_count(s@.take(k as int), h),
        decreases s.len() - k,
    {
        assert(s@.take(k + 1).drop_last() =~= s@.take(k as int));
        if s[k] == h {
            n = n + 1;
        }
        k = k + 1;
    }
    assert(s@.take(s@.len() as int) =~= s@);
    n
}

/// Are entries uniform?
pub fn is_uniform(t: &SyntaxTree, entries: &Vec<usize>, cfg: &Clones, control: &Vec<String>, shares: Shares) -> (r: bool)
    requires
        t.ok(),
        forall|k: int| 0 <= k < entries.len() ==> #[trigger] entries@[k] < t@.len(),
    ensures
        r == uniform(t@, entries@, *cfg, control.deep_view(), shares),
{
    let ghost cv = control.deep_view();
    let max: usize = cfg.table_max_entry_nodes;
    let mut s: Vec<u64> = Vec::new();
    let mut k: usize = 0;
    assert(entries@.take(0) =~= Seq::<usize>::empty());
    assert(s@ =~= Seq::<u64>::empty());
    while k < entries.len()
        invariant
            k <= entries.len(),
            t.ok(),
            cv == control.deep_view(),
            max == cfg.table_max_entry_nodes,
            forall|k: int| 0 <= k < entries.len() ==> #[trigger] entries@[k] < t@.len(),
            row_shapes(t@, entries@.take(k as int), max, cv) == Some(s@),
        decreases entries.len() - k,
    {
        assert(entries@.take(k + 1).drop_last() =~= entries@.take(k as int));
        assert(entries@[k as int] < t@.len());
        match shape(t, entries[k], max, control) {
            Some(h) => s.push(h),
            None => {
                proof {
                    rows_stay_none(t@, entries@, max, cv, k + 1);
                }
                return false;
            },
        }
        k = k + 1;
    }
    assert(entries@.take(entries@.len() as int) =~= entries@);
    let mut most: usize = 0;
    let mut k: usize = 0;
    while k < s.len()
        invariant
            k <= s.len(),
            most == most_often(s@, k as int),
        decreases s.len() - k,
    {
        let c: usize = count_hash(&s, s[k]);
        if c > most {
            most = c;
        }
        k = k + 1;
    }
    is_enough(most, entries.len(), shares.shape)
}

proof fn rows_stay_none(t: Nodes, entries: Seq<usize>, max: usize, control: Seq<Chars>, n: int)
    requires
        0 <= n <= entries.len(),
        row_shapes(t, entries.take(n), max, control) is None,
    ensures
        row_shapes(t, entries, max, control) is None,
    decreases entries.len() - n,
{
    if n == entries.len() {
        assert(entries.take(n) =~= entries);
    } else {
        assert(entries.take(n + 1).drop_last() =~= entries.take(n));
        rows_stay_none(t, entries, max, control, n + 1);
    }
}

// ---------- tables ----------

/// A table: what its container is, and how many entries a range covers.
pub struct TableSide {
    pub container_kind: String,
    pub entries: usize,
}

/// A [`TableSide`] by its contents.
pub struct TableView {
    pub container_kind: Chars,
    pub entries: usize,
}

impl DeepView for TableSide {
    type V = TableView;

    open spec fn deep_view(&self) -> TableView {
        TableView { container_kind: self.container_kind@, entries: self.entries }
    }
}

/// The entries span enough of the range.
pub open spec fn fills(t: Nodes, entries: Seq<usize>, s: usize, e: usize, share: usize) -> bool {
    enough(
        common_bytes(t[entries[0] as int].start, t[entries.last() as int].end, s, e),
        span(s, e),
        share,
    )
}

/// Up the chain from level `i`, the first one with enough consecutive same-kind entries under the
/// range decides: a table when those entries are uniform and span enough of the range, otherwise
/// nothing.
pub open spec fn table_from(
    t: Nodes,
    chain: Seq<LevelView>,
    i: int,
    s: usize,
    e: usize,
    cfg: Clones,
    control: Seq<Chars>,
    shares: Shares,
) -> Option<TableView>
    decreases i + 1,
{
    if i < 0 || i >= chain.len() {
        None
    } else {
        match entries_of(t, chain, i, cfg.table_min_entries) {
            Some(x) => if uniform(t, x, cfg, control, shares) && fills(t, x, s, e, shares.child) {
                Some(TableView { container_kind: t[chain[i].node as int].kind, entries: x.len() as usize })
            } else {
                None
            },
            None => table_from(t, chain, i - 1, s, e, cfg, control, shares),
        }
    }
}

/// The table of the first `n` levels of a chain, the innermost first.
pub fn find_table(
    t: &SyntaxTree,
    chain: &Vec<Level>,
    n: usize,
    s: usize,
    e: usize,
    cfg: &Clones,
    control: &Vec<String>,
    shares: Shares,
) -> (r: Option<TableSide>)
    requires
        t.ok(),
        n <= chain.len(),
        chain_ok(t@, chain.deep_view()),
    ensures
        r.deep_view() == table_from(t@, chain.deep_view(), n - 1, s, e, *cfg, control.deep_view(), shares),
{
    let ghost cv = chain.deep_view();
    let mut i: usize = n;
    while i > 0
        invariant
            i <= n <= chain.len(),
            t.ok(),
            cv == chain.deep_view(),
            chain_ok(t@, cv),
            table_from(t@, cv, n - 1, s, e, *cfg, control.deep_view(), shares) == table_from(
                t@,
                cv,
                i - 1,
                s,
                e,
                *cfg,
                control.deep_view(),
                shares,
            ),
        decreases i,
    {
        if let Some(x) = table_entries(t, chain, i - 1, cfg.table_min_entries) {
            let first: usize = x[0];
            let last: usize = x[x.len() - 1];
            assert(x@[0] < t@.len());
            assert(x@[x@.len() - 1] < t@.len());
            assert(t@[first as int] == t.nodes@[first as int].deep_view());
            assert(t@[last as int] == t.nodes@[last as int].deep_view());
            assert(cv[i - 1] == chain@[i - 1].deep_view());
            let full = is_enough(
                shared_bytes(t.nodes[first].start, t.nodes[last].end, s, e),
                length(s, e),
                shares.child,
            );
            if full && is_uniform(t, &x, cfg, control, shares) {
                return Some(TableSide { container_kind: t.kind(chain[i - 1].node).to_owned(), entries: x.len() });
            }
            return None;
        }
        i = i - 1;
    }
    None
}

/// The innermost level of a chain, from `i` down to the root, whose node spans a range.
pub open spec fn spanning(t: Nodes, chain: Seq<LevelView>, i: int, s: usize, e: usize) -> Option<int>
    decreases i + 1,
{
    if i < 0 || i >= chain.len() {
        None
    } else {
        let n = t[chain[i].node as int];
        if n.start <= s && n.end >= e {
            Some(i)
        } else {
            spanning(t, chain, i - 1, s, e)
        }
    }
}

/// Some entry of a level spans enough of a range.
pub open spec fn dominated(t: Nodes, kids: Seq<usize>, s: usize, e: usize, share: usize) -> bool {
    exists|k: int| 0 <= k < kids.len() && dominates(t, #[trigger] kids[k] as int, s, e, share)
}

/// Both ranges resolve to one container (or one range's node sits inside the other's), and that
/// container's entries across the two ranges are a uniform table: the first half of a `match`,
/// registry array or map literal matching its second half. Two sibling items of one container that
/// merely copy each other are not uniform and stay clones.
pub open spec fn self_match(
    t: Nodes,
    a: (usize, usize),
    b: (usize, usize),
    cfg: Clones,
    control: Seq<Chars>,
    shares: Shares,
) -> bool {
    let s = less_of(a.0, b.0);
    let e = more_of(a.1, b.1);
    let chain = chain_from(t, 0, s, e, shares.child);
    match spanning(t, chain, chain.len() - 1, s, e) {
        Some(i) => !(dominated(t, chain[i].kids, a.0, a.1, shares.child) && dominated(t, chain[i].kids, b.0, b.1, shares.child))
            && table_from(t, chain, i, s, e, cfg, control, shares) is Some,
        None => false,
    }
}

fn is_dominated(t: &SyntaxTree, kids: &Vec<usize>, s: usize, e: usize, share: usize) -> (r: bool)
    requires
        forall|k: int| 0 <= k < kids.len() ==> #[trigger] kids@[k] < t@.len(),
    ensures
        r == dominated(t@, kids@, s, e, share),
{
    let whole: usize = length(s, e);
    let mut k: usize = 0;
    while k < kids.len()
        invariant
            k <= kids.len(),
            whole == span(s, e),
            forall|k: int| 0 <= k < kids.len() ==> #[trigger] kids@[k] < t@.len(),
            forall|j: int| 0 <= j < k ==> !dominates(t@, #[trigger] kids@[j] as int, s, e, share),
        decreases kids.len() - k,
    {
        assert(kids@[k as int] < t@.len());
        let n = &t.nodes[kids[k]];
        assert(t@[kids@[k as int] as int] == n.deep_view());
        if is_enough(shared_bytes(n.start, n.end, s, e), whole, share) {
            assert(dominates(t@, kids@[k as int] as int, s, e, share));
            return true;
        }
        k = k + 1;
    }
    false
}

/// Do both ranges lie in one uniform table?
pub fn table_self_match(
    t: &SyntaxTree,
    a: (usize, usize),
    b: (usize, usize),
    cfg: &Clones,
    control: &Vec<String>,
    shares: Shares,
) -> (r: bool)
    requires
        t.ok(),
    ensures
        r == self_match(t@, a, b, *cfg, control.deep_view(), shares),
{
    let s: usize = if a.0 <= b.0 {
        a.0
    } else {
        b.0
    };
    let e: usize = if a.1 >= b.1 {
        a.1
    } else {
        b.1
    };
    let chain = resolve(t, s, e, shares.child);
    let ghost cv = chain.deep_view();
    let mut i: usize = chain.len();
    assert(cv.len() == chain.len());
    while i > 0
        invariant
            i <= chain.len(),
            t.ok(),
            cv == chain.deep_view(),
            cv.len() == chain.len(),
            chain_ok(t@, cv),
            s == less_of(a.0, b.0),
            e == more_of(a.1, b.1),
            cv == chain_from(t@, 0, s, e, shares.child),
            spanning(t@, cv, cv.len() - 1, s, e) == spanning(t@, cv, i - 1, s, e),
        decreases i,
    {
        assert(cv[i - 1] == chain@[i - 1].deep_view());
        let n = &t.nodes[chain[i - 1].node];
        assert(t@[cv[i - 1].node as int] == n.deep_view());
        if n.start <= s && n.end >= e {
            let kids = &chain[i - 1].kids;
            assert forall|k: int| 0 <= k < kids.len() implies #[trigger] kids@[k] < t@.len() by {
                assert(cv[i - 1].kids[k] < t@.len());
            }
            if is_dominated(t, kids, a.0, a.1, shares.child) && is_dominated(t, kids, b.0, b.1, shares.child) {
                return false;
            }
            return find_table(t, &chain, i, s, e, cfg, control, shares).is_some();
        }
        i = i - 1;
    }
    false
}

// ---------- names ----------

/// The node that names an item.
pub open spec fn name_node(t: Nodes, n: int) -> Option<usize> {
    let k = t[n].kind;
    if k == "let_declaration"@ {
        child_of(t, n, "pattern"@)
    } else if k == "assignment"@ {
        child_of(t, n, "left"@)
    } else if k == "impl_item"@ {
        child_of(t, n, "type"@)
    } else {
        child_of(t, n, "name"@)
    }
}

/// The name of the nearest node on the chain, from level `i` up, that names an item.
pub open spec fn symbol_from(t: Nodes, chain: Seq<LevelView>, i: int) -> Option<Chars>
    decreases i + 1,
{
    if i < 0 || i >= chain.len() {
        None
    } else {
        match name_node(t, chain[i].node as int) {
            Some(n) => if holds(t[n as int].kind, "identifier"@) {
                Some(t[n as int].text)
            } else {
                symbol_from(t, chain, i - 1)
            },
            None => symbol_from(t, chain, i - 1),
        }
    }
}

/// Text of the nearest node on the chain, innermost first, that names an item (`fn`, `static`,
/// `enum`, `let`, `const x =`).
pub fn enclosing_symbol(t: &SyntaxTree, chain: &Vec<Level>) -> (r: Option<String>)
    requires
        t.ok(),
        chain_ok(t@, chain.deep_view()),
    ensures
        r.deep_view() == symbol_from(t@, chain.deep_view(), chain.len() - 1),
{
    let ghost cv = chain.deep_view();
    let mut i: usize = chain.len();
    while i > 0
        invariant
            i <= chain.len(),
            t.ok(),
            cv == chain.deep_view(),
            chain_ok(t@, cv),
            symbol_from(t@, cv, chain.len() - 1) == symbol_from(t@, cv, i - 1),
        decreases i,
    {
        assert(cv[i - 1] == chain@[i - 1].deep_view());
        let n: usize = chain[i - 1].node;
        assert(n < t@.len());
        let name = if t.is(n, "let_declaration") {
            t.child(n, "pattern")
        } else if t.is(n, "assignment") {
            t.child(n, "left")
        } else if t.is(n, "impl_item") {
            t.child(n, "type")
        } else {
            t.child(n, "name")
        };
        if let Some(x) = name {
            if has_text(t.kind(x), "identifier") {
                return Some(t.text(x).to_owned());
            }
        }
        i = i - 1;
    }
    None
}

/// The settings key of a grammar.
pub open spec fn control_key(lang: Language) -> Chars {
    match lang {
        Language::Rust => "rust"@,
        Language::Python => "python"@,
        _ => "typescript"@,
    }
}

/// The kinds of control flow listed under a key, from `k` on.
pub open spec fn control_from(list: Seq<(Chars, Seq<Chars>)>, key: Chars, k: int) -> Seq<Chars>
    decreases list.len() - k,
{
    if k < 0 || k >= list.len() {
        Seq::empty()
    } else if list[k].0 == key {
        list[k].1
    } else {
        control_from(list, key, k + 1)
    }
}

/// The kinds of control flow of a grammar.
pub open spec fn control_of(cfg: Clones, lang: Language) -> Seq<Chars> {
    control_from(cfg.table_control_kinds.deep_view(), control_key(lang), 0)
}

/// The kinds of control flow of a grammar.
pub fn control_kinds(cfg: &Clones, lang: Language) -> (out: Vec<String>)
    ensures
        out.deep_view() == control_of(*cfg, lang),
{
    let key = match lang {
        Language::Rust => "rust",
        Language::Python => "python",
        _ => "typescript",
    };
    let list = &cfg.table_control_kinds;
    let ghost view = list.deep_view();
    let mut k: usize = 0;
    while k < list.len()
        invariant
            k <= list.len(),
            view == list.deep_view(),
            *list == cfg.table_control_kinds,
            key@ == control_key(lang),
            control_from(view, key@, 0) == control_from(view, key@, k as int),
        decreases list.len() - k,
    {
        assert(view[k as int] == list@[k as int].deep_view());
        if same(list[k].0.as_str(), key) {
            return crate::text::copy_list(&list[k].1);
        }
        k = k + 1;
    }
    let none: Vec<String> = Vec::new();
    assert(none.deep_view() =~= Seq::<Chars>::empty());
    none
}

} // verus!
