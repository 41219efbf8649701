//! What becomes a token and what does not, stated over the nodes of a tree.

use vstd::prelude::*;

use crate::clones::tokens::{
    class_of, ends_at_no_deeper, hashes_of, heard, mute, nested, silenced, text_hash, token_at, tokens_are_heard,
    tokens_from, Token,
};
use crate::cursor::{preordered, source_ordered};
use crate::regions::{within, TestRegion};
use crate::text::{holds, Chars};
use crate::tree::{built, built_node, child_of, ints, kids, parent_of, path, path_is_by_depth, Nodes, RawView};

verus! {

/// A token is written where node `p` is.
pub open spec fn written_at(t: Nodes, p: int, k: Token) -> bool {
    0 <= p < t.len() && k.start == t[p].start && k.end == t[p].end && k.line == t[p].line
}

/// No token lies in a comment: every token is written where some node is that neither is a comment
/// nor stands in one, and so before it or behind it in the text, or else around it.
pub proof fn a_comment_holds_no_token(raw: Seq<RawView>, t: Nodes, regions: Seq<TestRegion>, k: int, q: int)
    requires
        built(raw, t),
        source_ordered(raw),
        0 <= k < tokens_from(t, 0, regions).len(),
        0 <= q < t.len(),
        t[q].kind == "comment"@ || t[q].kind == "line_comment"@ || t[q].kind == "block_comment"@,
    ensures
        ({
            let x = tokens_from(t, 0, regions)[k];
            exists|p: int| #[trigger]
                written_at(t, p, x) && !(q <= p < t[q].after) && (x.end <= t[q].start || t[q].end <= x.start || p < q < t[p].after)
        }),
{
    tokens_are_heard(raw, t, 0, regions);
    let x = tokens_from(t, 0, regions)[k];
    assert(heard(t, regions, x));
    let p = choose|p: int| #[trigger] token_at(t, p, x) && !silenced(t, p, regions);
    assert(mute(t, q, regions));
    assert(!(q <= p < t[q].after));
    assert(built_node(raw, t[p], p) && built_node(raw, t[q], q));
    if p < q {
        if t[p].after <= q {
            assert(raw[p].end <= raw[q].start);
        }
    } else {
        assert(raw[q].end <= raw[p].start);
    }
    assert(written_at(t, p, x));
}

/// No token lies in a static import or re-export, and none starts in a test region.
pub proof fn an_import_or_a_test_holds_no_token(raw: Seq<RawView>, t: Nodes, regions: Seq<TestRegion>, k: int, q: int)
    requires
        built(raw, t),
        0 <= k < tokens_from(t, 0, regions).len(),
        0 <= q < t.len(),
        ({
            ||| t[q].kind == "use_declaration"@
            ||| t[q].kind == "extern_crate_declaration"@
            ||| t[q].kind == "import_statement"@
            ||| t[q].kind == "import_from_statement"@
            ||| t[q].kind == "future_import_statement"@
            ||| t[q].kind == "export_statement"@ && child_of(t, q, "source"@) is Some
            ||| exists|g: int| 0 <= g < regions.len() && (#[trigger] regions[g]).start <= t[q].start < regions[g].end
        }),
    ensures
        ({
            let x = tokens_from(t, 0, regions)[k];
            &&& exists|p: int| #[trigger] written_at(t, p, x) && !(q <= p < t[q].after)
            &&& forall|g: int| 0 <= g < regions.len() ==> !((#[trigger] regions[g]).start <= x.start < regions[g].end)
        }),
{
    tokens_are_heard(raw, t, 0, regions);
    let x = tokens_from(t, 0, regions)[k];
    assert(heard(t, regions, x));
    let p = choose|p: int| #[trigger] token_at(t, p, x) && !silenced(t, p, regions);
    assert(mute(t, q, regions));
    assert(!(q <= p < t[q].after));
    assert(written_at(t, p, x));
    assert(built_node(raw, t[p], p));
    ends_at_no_deeper(raw, p, p + 1);
    assert(p < t[p].after);
    assert(!mute(t, p, regions));
    assert(!within(regions, x.start));
}

// ---------- nothing else is left out ----------

/// A literal that is one token, whatever it is made of: a text.
pub open spec fn a_text(kind: Chars) -> bool {
    ||| kind == "string"@
    ||| kind == "template_string"@
    ||| kind == "string_literal"@
    ||| kind == "raw_string_literal"@
    ||| kind == "concatenated_string"@
    ||| kind == "jsx_text"@
    ||| kind == "char_literal"@
}

/// A literal that is one token, whatever it is made of: a number or another constant.
pub open spec fn a_constant(kind: Chars) -> bool {
    ||| kind == "integer"@
    ||| kind == "float"@
    ||| kind == "number"@
    ||| kind == "integer_literal"@
    ||| kind == "float_literal"@
    ||| kind == "true"@
    ||| kind == "false"@
    ||| kind == "none"@
    ||| kind == "null"@
    ||| kind == "undefined"@
}

/// A node that silences what stands in it: a comment, an import, or one that starts in a test.
pub open spec fn quiet(t: Nodes, q: int, regions: Seq<TestRegion>) -> bool {
    ||| t[q].kind == "comment"@
    ||| t[q].kind == "line_comment"@
    ||| t[q].kind == "block_comment"@
    ||| t[q].kind == "use_declaration"@
    ||| t[q].kind == "extern_crate_declaration"@
    ||| t[q].kind == "import_statement"@
    ||| t[q].kind == "import_from_statement"@
    ||| t[q].kind == "future_import_statement"@
    ||| t[q].kind == "export_statement"@ && child_of(t, q, "source"@) is Some
    ||| exists|g: int| 0 <= g < regions.len() && (#[trigger] regions[g]).start <= t[q].start < regions[g].end
}

proof fn kid_is_listed(raw: Seq<RawView>, i: int, n: int, x: int)
    requires
        0 <= x < n,
        parent_of(raw, x) == Some(i),
    ensures
        kids(raw, i, n).len() > 0,
        kids(raw, i, n).contains(x),
    decreases n,
{
    let all = kids(raw, i, n);
    if x < n - 1 {
        kid_is_listed(raw, i, n - 1, x);
        let less = kids(raw, i, n - 1);
        let y = choose|y: int| 0 <= y < less.len() && less[y] == x;
        assert(all[y] == x);
    } else {
        assert(all[all.len() - 1] == x);
    }
}

/// A node without children ends where the next one begins.
pub(crate) proof fn a_leaf_is_short(raw: Seq<RawView>, t: Nodes, i: int)
    requires
        built(raw, t),
        preordered(raw),
        0 <= i < t.len(),
        t[i].children.len() == 0,
    ensures
        t[i].after == i + 1,
{
    assert(built_node(raw, t[i], i));
    ends_at_no_deeper(raw, i, i + 1);
    if t[i].after > i + 1 {
        assert(raw[i + 1].depth > raw[i].depth);
        assert(raw[i + 1].depth <= raw[i].depth + 1);
        path_is_by_depth(raw, i);
        path_is_by_depth(raw, i + 1);
        crate::tree::path_is_ascending(raw, i);
        let p = path(raw, i);
        assert(path(raw, i + 1) =~= p.push(i + 1));
        assert(parent_of(raw, i + 1) == Some(i));
        kid_is_listed(raw, i, raw.len() as int, i + 1);
        assert(ints(t[i].children).len() == kids(raw, i, raw.len() as int).len());
    }
}

/// The token of a node: texts, constants and identifiers are one class each, any other leaf is its
/// kind.
pub open spec fn token_of(t: Nodes, p: int, x: Token) -> bool {
    &&& written_at(t, p, x)
    &&& a_text(t[p].kind) ==> x.hash == text_hash("STR"@)
    &&& !a_text(t[p].kind) && a_constant(t[p].kind) ==> x.hash == text_hash("NUM"@)
    &&& !a_text(t[p].kind) && !a_constant(t[p].kind) && holds(t[p].kind, "identifier"@) ==> x.hash == text_hash("ID"@)
    &&& !a_text(t[p].kind) && !a_constant(t[p].kind) && !holds(t[p].kind, "identifier"@) ==> x.hash == text_hash(t[p].kind)
}

proof fn token_is_listed(raw: Seq<RawView>, t: Nodes, regions: Seq<TestRegion>, i: int, p: int) -> (k: int)
    requires
        built(raw, t),
        preordered(raw),
        0 <= i <= p < t.len(),
        a_text(t[p].kind) || a_constant(t[p].kind) || t[p].children.len() == 0,
        forall|q: int| 0 <= q <= p && p < (#[trigger] t[q]).after ==> !quiet(t, q, regions),
        forall|q: int| 0 <= q < p && p < (#[trigger] t[q]).after ==> !a_text(t[q].kind) && !a_constant(t[q].kind),
    ensures
        0 <= k < tokens_from(t, i, regions).len(),
        token_of(t, p, tokens_from(t, i, regions)[k]),
    decreases t.len() - i,
{
    assert(built_node(raw, t[i], i));
    ends_at_no_deeper(raw, i, i + 1);
    let after = t[i].after as int;
    assert(mute(t, i, regions) == quiet(t, i, regions));
    if i == p {
        0
    } else if mute(t, i, regions) {
        token_is_listed(raw, t, regions, after, p)
    } else {
        match class_of(t, i) {
            Some(c) => {
                if t[i].children.len() == 0 {
                    a_leaf_is_short(raw, t, i);
                }
                let k = token_is_listed(raw, t, regions, after, p);
                assert(tokens_from(t, i, regions)[k + 1] == tokens_from(t, after, regions)[k]);
                k + 1
            },
            None => token_is_listed(raw, t, regions, i + 1, p),
        }
    }
}

/// Nothing else is left out: every text, every constant and every other leaf, where it stands in no
/// comment, import or test and is not a part of a text or a constant, is a token of its class.
pub proof fn every_other_leaf_is_a_token(raw: Seq<RawView>, t: Nodes, regions: Seq<TestRegion>, p: int)
    requires
        built(raw, t),
        preordered(raw),
        0 <= p < t.len(),
        a_text(t[p].kind) || a_constant(t[p].kind) || t[p].children.len() == 0,
        forall|q: int| 0 <= q <= p && p < (#[trigger] t[q]).after ==> !quiet(t, q, regions),
        forall|q: int| 0 <= q < p && p < (#[trigger] t[q]).after ==> !a_text(t[q].kind) && !a_constant(t[q].kind),
    ensures
        exists|k: int| 0 <= k < tokens_from(t, 0, regions).len() && token_of(t, p, #[trigger] tokens_from(t, 0, regions)[k]),
{
    let k = token_is_listed(raw, t, regions, 0, p);
    assert(token_of(t, p, tokens_from(t, 0, regions)[k]));
}

/// Every token is that of a text, a constant or another leaf, by its class.
pub proof fn a_token_is_a_leaf(raw: Seq<RawView>, t: Nodes, regions: Seq<TestRegion>, k: int)
    requires
        built(raw, t),
        0 <= k < tokens_from(t, 0, regions).len(),
    ensures
        exists|p: int| #[trigger]
            token_of(t, p, tokens_from(t, 0, regions)[k]) && !quiet(t, p, regions) && (a_text(t[p].kind) || a_constant(t[p].kind)
                || t[p].children.len() == 0),
{
    tokens_are_heard(raw, t, 0, regions);
    let x = tokens_from(t, 0, regions)[k];
    assert(heard(t, regions, x));
    let p = choose|p: int| #[trigger] token_at(t, p, x) && !silenced(t, p, regions);
    assert(built_node(raw, t[p], p));
    ends_at_no_deeper(raw, p, p + 1);
    assert(!mute(t, p, regions));
    assert(token_of(t, p, x));
}

// ---------- comments do not matter ----------

/// Node `p` is a comment, or stands in one.
pub open spec fn in_comment(t: Nodes, p: int) -> bool {
    exists|q: int|
        0 <= q <= p && p < (#[trigger] t[q]).after && (t[q].kind == "comment"@ || t[q].kind == "line_comment"@ || t[q].kind
            == "block_comment"@)
}

/// `u` is `t` without its comments: node `i` of `u` is node `f[i]` of `t`, the same in all that
/// matters but for the place; what `u` has no node for stands in a comment.
pub open spec fn uncommented(t: Nodes, r: Seq<TestRegion>, u: Nodes, s: Seq<TestRegion>, f: Seq<int>) -> bool {
    &&& f.len() == u.len()
    &&& forall|i: int, j: int| 0 <= i < j < f.len() ==> #[trigger] f[i] < #[trigger] f[j]
    &&& forall|i: int|
        0 <= i < f.len() ==> {
            &&& 0 <= #[trigger] f[i] < t.len()
            &&& !in_comment(t, f[i])
            &&& u[i].kind == t[f[i]].kind
            &&& (u[i].children.len() == 0) == (t[f[i]].children.len() == 0)
            &&& mute(u, i, s) == mute(t, f[i], r)
            &&& i < u[i].after <= u.len()
            &&& forall|j: int| 0 <= j < f.len() ==> (j < u[i].after <==> #[trigger] f[j] < t[f[i]].after)
        }
    &&& forall|p: int| 0 <= p < t.len() && !(#[trigger] in_comment(t, p)) ==> f.contains(p)
}

proof fn hashes_without_comments(
    raw: Seq<RawView>,
    t: Nodes,
    r: Seq<TestRegion>,
    u: Nodes,
    s: Seq<TestRegion>,
    f: Seq<int>,
    p: int,
    i: int,
)
    requires
        built(raw, t),
        uncommented(t, r, u, s, f),
        0 <= p <= t.len(),
        0 <= i <= u.len(),
        forall|j: int| 0 <= j < i ==> #[trigger] f[j] < p,
        forall|j: int| i <= j < f.len() ==> #[trigger] f[j] >= p,
        forall|q: int|
            0 <= q < p && p < (#[trigger] t[q]).after ==> !(t[q].kind == "comment"@ || t[q].kind == "line_comment"@ || t[q].kind
                == "block_comment"@),
    ensures
        hashes_of(tokens_from(t, p, r)) == hashes_of(tokens_from(u, i, s)),
    decreases t.len() - p,
{
    let x = hashes_of(tokens_from(t, p, r));
    let y = hashes_of(tokens_from(u, i, s));
    if p == t.len() {
        if i < u.len() {
            assert(f[i] >= p);
        }
        assert(x =~= y);
    } else {
        assert(built_node(raw, t[p], p));
        ends_at_no_deeper(raw, p, p + 1);
        let after = t[p].after as int;
        assert forall|q: int| p <= q < after && (#[trigger] t[q]).after > after implies q == p by {
            if q > p {
                nested(raw, t, p, q);
            }
        }
        if in_comment(t, p) {
            let c = choose|q: int|
                0 <= q <= p && p < (#[trigger] t[q]).after && (t[q].kind == "comment"@ || t[q].kind == "line_comment"@ || t[q].kind
                    == "block_comment"@);
            assert(c == p);
            assert(mute(t, p, r));
            assert forall|j: int| 0 <= j < f.len() implies !(p <= #[trigger] f[j] < after) by {
                assert(!in_comment(t, f[j]));
                if p <= f[j] < after {
                    assert(in_comment(t, f[j])) by {
                        assert(t[p].after > f[j]);
                    }
                }
            }
            assert forall|j: int| i <= j < f.len() implies #[trigger] f[j] >= after by {}
            assert forall|j: int| 0 <= j < i implies #[trigger] f[j] < after by {}
            assert forall|q: int| 0 <= q < after && after < (#[trigger] t[q]).after implies !(t[q].kind == "comment"@ || t[q].kind
                == "line_comment"@ || t[q].kind == "block_comment"@) by {
                if q >= p {
                    assert(q == p);
                }
            }
            hashes_without_comments(raw, t, r, u, s, f, after, i);
        } else {
            assert(f.contains(p));
            let m = choose|m: int| 0 <= m < f.len() && f[m] == p;
            if m < i {
                assert(f[m] < p);
            }
            if m > i {
                assert(f[i] < f[m]);
                assert(f[i] >= p);
            }
            assert(m == i);
            let rest = u[i].after as int;
            assert forall|j: int| 0 <= j < rest implies #[trigger] f[j] < after by {
                assert(j < u[i].after <==> f[j] < t[f[i]].after);
            }
            assert forall|j: int| rest <= j < f.len() implies #[trigger] f[j] >= after by {
                assert(j < u[i].after <==> f[j] < t[f[i]].after);
            }
            if mute(t, p, r) || class_of(t, p) is Some {
                assert forall|q: int| 0 <= q < after && after < (#[trigger] t[q]).after implies !(t[q].kind == "comment"@ || t[q].kind
                    == "line_comment"@ || t[q].kind == "block_comment"@) by {
                    if q >= p {
                        assert(q == p);
                    }
                }
                hashes_without_comments(raw, t, r, u, s, f, after, rest);
                if !mute(t, p, r) {
                    let c = class_of(t, p)->0;
                    assert(class_of(u, i) == Some(c));
                    assert(x =~= seq![text_hash(c)] + hashes_of(tokens_from(t, after, r)));
                    assert(y =~= seq![text_hash(c)] + hashes_of(tokens_from(u, rest, s)));
                }
            } else {
                assert(class_of(u, i) is None);
                assert forall|j: int| i + 1 <= j < f.len() implies #[trigger] f[j] >= p + 1 by {
                    assert(f[i] < f[j]);
                }
                assert forall|j: int| 0 <= j < i + 1 implies #[trigger] f[j] < p + 1 by {}
                assert forall|q: int| 0 <= q < p + 1 && p + 1 < (#[trigger] t[q]).after implies !(t[q].kind == "comment"@ || t[q].kind
                    == "line_comment"@ || t[q].kind == "block_comment"@) by {
                    if q == p {
                        if t[q].kind == "comment"@ || t[q].kind == "line_comment"@ || t[q].kind == "block_comment"@ {
                            assert(in_comment(t, p));
                        }
                    }
                }
                hashes_without_comments(raw, t, r, u, s, f, p + 1, i + 1);
            }
        }
    }
}

/// Comments do not matter: a tree has the hashes that it has without its comments.
pub proof fn comments_leave_the_hashes_alone(raw: Seq<RawView>, t: Nodes, r: Seq<TestRegion>, u: Nodes, s: Seq<TestRegion>, f: Seq<int>)
    requires
        built(raw, t),
        uncommented(t, r, u, s, f),
    ensures
        hashes_of(tokens_from(t, 0, r)) == hashes_of(tokens_from(u, 0, s)),
{
    assert forall|j: int| 0 <= j < f.len() implies #[trigger] f[j] >= 0 by {}
    hashes_without_comments(raw, t, r, u, s, f, 0, 0);
}

} // verus!
