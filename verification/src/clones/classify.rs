//! What the tokens of a clone are part of: heads of functions, declarative values, or code.

use vstd::prelude::*;

use crate::clones::detect::CloneKind;
use crate::clones::tables::{enough, is_enough};
use crate::clones::tokens::{Token, Tokens};
use crate::lang::Language;
use crate::text::{chars, contains as has_text, holds, is_upper, pieces, same, split, uppercase, Chars};
use crate::tree::{child_of, Nodes, SyntaxTree};
use crate::units::{tree_units, unit_nodes, Unit, UnitView};

verus! {

/// How many of the first `n` tokens are part of a kind.
pub open spec fn count_kind(s: Seq<CloneKind>, kind: CloneKind, n: int) -> nat
    decreases n,
{
    if n <= 0 {
        0
    } else {
        count_kind(s, kind, n - 1) + (if s[n - 1] == kind {
            1nat
        } else {
            0nat
        })
    }
}

/// Enough of the tokens are part of a kind.
pub open spec fn dominated_by(s: Seq<CloneKind>, kind: CloneKind, share: usize) -> bool {
    enough(count_kind(s, kind, s.len() as int), s.len(), share)
}

/// A table of arguments is no table yet: what its tokens are part of decides.
pub open spec fn of_arguments(k: Chars) -> bool {
    k == "argument_list"@ || k == "arguments"@
}

/// The kind of a pair, by what the tokens of both sides are part of and the table they lie in.
pub open spec fn kind_of_pair(a: Seq<CloneKind>, b: Seq<CloneKind>, table: Option<Chars>, share: usize) -> CloneKind {
    if dominated_by(a, CloneKind::Signature, share) && dominated_by(b, CloneKind::Signature, share) {
        CloneKind::Signature
    } else if (match table {
        Some(k) => !of_arguments(k),
        None => false,
    }) {
        CloneKind::Table
    } else if dominated_by(a, CloneKind::Configuration, share) && dominated_by(b, CloneKind::Configuration, share) {
        CloneKind::Configuration
    } else if table is Some {
        CloneKind::Table
    } else {
        CloneKind::Logic
    }
}

fn is_dominated_by(s: &Vec<CloneKind>, kind: CloneKind, share: usize) -> (r: bool)
    ensures
        r == dominated_by(s@, kind, share),
{
    let mut c: usize = 0;
    let mut n: usize = 0;
    while n < s.len()
        invariant
            n <= s.len(),
            c <= n,
            c == count_kind(s@, kind, n as int),
        decreases s.len() - n,
    {
        if s[n] == kind {
            c = c + 1;
        }
        n = n + 1;
    }
    is_enough(c, s.len(), share)
}

/// The kind of a pair.
pub fn pair_kind(a: &Vec<CloneKind>, b: &Vec<CloneKind>, table: Option<&str>, share: usize) -> (r: CloneKind)
    ensures
        r == kind_of_pair(
            a@,
            b@,
            match table {
                Some(k) => Some(k@),
                None => None,
            },
            share,
        ),
{
    if is_dominated_by(a, CloneKind::Signature, share) && is_dominated_by(b, CloneKind::Signature, share) {
        return CloneKind::Signature;
    }
    if let Some(k) = table {
        if !(same(k, "argument_list") || same(k, "arguments")) {
            return CloneKind::Table;
        }
    }
    if is_dominated_by(a, CloneKind::Configuration, share) && is_dominated_by(b, CloneKind::Configuration, share) {
        return CloneKind::Configuration;
    }
    if table.is_some() {
        CloneKind::Table
    } else {
        CloneKind::Logic
    }
}

// ---------- marks ----------

/// The first token, from `i` on, that starts at a byte or later.
pub open spec fn first_at(list: Seq<Token>, start: usize, i: int) -> int
    decreases list.len() - i,
{
    if 0 <= i < list.len() && list[i].start < start {
        first_at(list, start, i + 1)
    } else {
        i
    }
}

/// The first token, from `i` on, that ends past a byte.
pub open spec fn first_past(list: Seq<Token>, end: usize, i: int) -> int
    decreases list.len() - i,
{
    if 0 <= i < list.len() && list[i].end <= end {
        first_past(list, end, i + 1)
    } else {
        i
    }
}

/// The tokens from one byte to another marked as part of a kind.
pub open spec fn marked(s: Seq<CloneKind>, list: Seq<Token>, start: usize, end: usize, kind: CloneKind) -> Seq<CloneKind> {
    let lo = first_at(list, start, 0);
    let hi = first_past(list, end, 0);
    Seq::new(
        s.len(),
        |i: int|
            if lo <= i < hi {
                kind
            } else {
                s[i]
            },
    )
}

/// Marks the tokens from one byte to another as part of a kind.
pub fn mark(out: &mut Vec<CloneKind>, t: &Tokens, start: usize, end: usize, kind: CloneKind)
    requires
        old(out).len() == t.list.len(),
    ensures
        final(out)@ == marked(old(out)@, t.list@, start, end, kind),
        final(out).len() == t.list.len(),
{
    let ghost was = out@;
    let mut lo: usize = 0;
    while lo < t.list.len() && t.list[lo].start < start
        invariant
            lo <= t.list.len(),
            first_at(t.list@, start, 0) == first_at(t.list@, start, lo as int),
        decreases t.list.len() - lo,
    {
        lo = lo + 1;
    }
    let mut hi: usize = 0;
    while hi < t.list.len() && t.list[hi].end <= end
        invariant
            hi <= t.list.len(),
            first_past(t.list@, end, 0) == first_past(t.list@, end, hi as int),
        decreases t.list.len() - hi,
    {
        hi = hi + 1;
    }
    let mut i: usize = lo;
    while i < hi
        invariant
            lo <= i,
            hi <= t.list.len(),
            out.len() == t.list.len(),
            was.len() == out.len(),
            i <= hi || i == lo,
            forall|j: int|
                0 <= j < out.len() ==> #[trigger] out@[j] == (if lo <= j < i && j < hi {
                    kind
                } else {
                    was[j]
                }),
        decreases hi - i,
    {
        out.set(i, kind);
        i = i + 1;
    }
    assert(out@ =~= marked(was, t.list@, start, end, kind));
}

// ---------- declarative values ----------

/// What makes a value code.
pub open spec fn computing(k: Chars) -> bool {
    holds(k, "comprehension"@) || k == "lambda"@ || k == "arrow_function"@ || k == "function_expression"@ || k == "await"@
        || k == "await_expression"@ || k == "if_expression"@ || k == "conditional_expression"@ || k == "block"@
}

/// A name that a constructor has: a capital first.
pub open spec fn constructor(text: Chars) -> bool {
    let p = pieces(text, ".:"@);
    let name = p[p.len() - 1];
    name.len() > 0 && uppercase(name[0])
}

/// A node that declarative configuration may hold: no code, and calls of constructors alone.
pub open spec fn declares(t: Nodes, n: int) -> bool {
    let k = t[n].kind;
    !computing(k) && (k == "call"@ || k == "call_expression"@ ==> (match child_of(t, n, "function"@) {
        Some(f) => constructor(t[f as int].text),
        None => false,
    }))
}

/// The named nodes from `n` to `end` may all stand in declarative configuration.
pub open spec fn declares_from(t: Nodes, n: int, end: int, top: int) -> bool
    decreases t.len() - n,
{
    if n < 0 || n >= end || end > t.len() {
        true
    } else if !t[n].named && n != top {
        let after = t[n].after as int;
        if n < after <= t.len() {
            declares_from(t, after, end, top)
        } else {
            true
        }
    } else {
        declares(t, n) && declares_from(t, n + 1, end, top)
    }
}

/// A value is declarative.
pub open spec fn declared(t: Nodes, v: int) -> bool {
    declares_from(t, v, t[v].after as int, v)
}

proof fn pieces_are_some(s: Chars, seps: Chars, from: int, i: int)
    ensures
        crate::text::pieces_from(s, seps, from, i).len() > 0,
    decreases s.len() - i,
{
    if 0 <= i < s.len() {
        pieces_are_some(s, seps, from, i + 1);
        pieces_are_some(s, seps, i + 1, i + 1);
    }
}

fn is_constructor(text: &str) -> (r: bool)
    ensures
        r == constructor(text@),
{
    let p = split(text, ".:");
    proof {
        pieces_are_some(text@, ".:"@, 0, 0);
        assert(p.len() == p.deep_view().len());
        assert(p.deep_view()[p.len() - 1] == p@[p.len() - 1]@);
    }
    let name = chars(p[p.len() - 1].as_str());
    name.len() > 0 && is_upper(name[0])
}

/// Is a value declarative?
pub fn declarative(t: &SyntaxTree, v: usize) -> (r: bool)
    requires
        t.ok(),
        v < t@.len(),
    ensures
        r == declared(t@, v as int),
{
    assert(crate::tree::node_ok(t@, v as int));
    assert(t@[v as int] == t.nodes@[v as int].deep_view());
    let end: usize = t.nodes[v].after;
    let mut n: usize = v;
    while n < end
        invariant
            t.ok(),
            end <= t@.len(),
            declared(t@, v as int) == declares_from(t@, n as int, end as int, v as int),
        decreases t@.len() - n,
    {
        assert(crate::tree::node_ok(t@, n as int));
        assert(t@[n as int] == t.nodes@[n as int].deep_view());
        if !t.nodes[n].named && n != v {
            n = t.nodes[n].after;
        } else {
            let k = t.kind(n);
            if has_text(k, "comprehension") || same(k, "lambda") || same(k, "arrow_function") || same(k, "function_expression")
                || same(k, "await") || same(k, "await_expression") || same(k, "if_expression") || same(
                k,
                "conditional_expression",
            ) || same(k, "block") {
                return false;
            }
            if same(k, "call") || same(k, "call_expression") {
                match t.child(n, "function") {
                    Some(f) => {
                        if !is_constructor(t.text(f)) {
                            return false;
                        }
                    },
                    None => {
                        return false;
                    },
                }
            }
            n = n + 1;
        }
    }
    true
}

// ---------- contexts ----------

/// Where the head of a unit ends.
pub open spec fn head_end(t: Nodes, n: int) -> usize {
    match child_of(t, n, "body"@) {
        Some(b) => t[b as int].start,
        None => t[n].end,
    }
}

/// The tokens with the heads of the units from `k` on marked.
pub open spec fn heads_marked(s: Seq<CloneKind>, list: Seq<Token>, t: Nodes, units: Seq<UnitView>, k: int) -> Seq<CloneKind>
    decreases units.len() - k,
{
    if k < 0 || k >= units.len() {
        s
    } else {
        let n = units[k].node as int;
        heads_marked(marked(s, list, t[n].start, head_end(t, n), CloneKind::Signature), list, t, units, k + 1)
    }
}

/// A signature without a body.
pub open spec fn signature_kind(k: Chars) -> bool {
    k == "function_signature_item"@ || k == "method_signature"@ || k == "function_signature"@ || k
        == "abstract_method_signature"@
}

/// What binds a value.
pub open spec fn binding_kind(k: Chars) -> bool {
    k == "assignment"@ || k == "variable_declarator"@ || k == "const_item"@ || k == "static_item"@
}

/// The value that a node binds.
pub open spec fn value_of(t: Nodes, n: int) -> Option<usize> {
    match child_of(t, n, "right"@) {
        Some(v) => Some(v),
        None => child_of(t, n, "value"@),
    }
}

/// A node that binds a declarative value.
pub open spec fn configures(t: Nodes, n: int) -> bool {
    binding_kind(t[n].kind) && (match value_of(t, n) {
        Some(v) => declared(t, v as int),
        None => false,
    })
}

/// A node is a unit.
pub open spec fn unit_at(units: Seq<UnitView>, n: int) -> bool {
    exists|k: int| 0 <= k < units.len() && (#[trigger] units[k]).node == n
}

/// The tokens with the signatures and declarative values from node `n` on marked; units stand apart.
pub open spec fn rest_marked(s: Seq<CloneKind>, list: Seq<Token>, t: Nodes, units: Seq<UnitView>, n: int) -> Seq<CloneKind>
    decreases t.len() - n,
{
    if n < 0 || n >= t.len() {
        s
    } else {
        let after = t[n].after as int;
        let outside = (!t[n].named && n != 0) || unit_at(units, n);
        let next = if outside {
            s
        } else if signature_kind(t[n].kind) {
            marked(s, list, t[n].start, t[n].end, CloneKind::Signature)
        } else if configures(t, n) {
            marked(s, list, t[n].start, t[n].end, CloneKind::Configuration)
        } else {
            s
        };
        if outside || signature_kind(t[n].kind) || configures(t, n) {
            if n < after <= t.len() {
                rest_marked(next, list, t, units, after)
            } else {
                next
            }
        } else {
            rest_marked(next, list, t, units, n + 1)
        }
    }
}

/// What each token of a file is part of.
pub open spec fn contexts_of(list: Seq<Token>, tree: Option<Nodes>, lang: Language) -> Seq<CloneKind> {
    let none = Seq::new(list.len(), |i: int| CloneKind::Logic);
    match tree {
        Some(t) => {
            let units = tree_units(t, lang);
            rest_marked(heads_marked(none, list, t, units, 0), list, t, units, 0)
        },
        None => none,
    }
}

fn is_unit_at(units: &Vec<Unit>, n: usize) -> (r: bool)
    ensures
        r == unit_at(units.deep_view(), n as int),
{
    let ghost view = units.deep_view();
    let mut k: usize = 0;
    while k < units.len()
        invariant
            k <= units.len(),
            view == units.deep_view(),
            forall|j: int| 0 <= j < k ==> (#[trigger] view[j]).node != n,
        decreases units.len() - k,
    {
        assert(view[k as int] == units@[k as int].deep_view());
        if units[k].node == n {
            assert(view[k as int].node == n);
            return true;
        }
        k = k + 1;
    }
    false
}

fn does_configure(t: &SyntaxTree, n: usize) -> (r: bool)
    requires
        t.ok(),
        n < t@.len(),
    ensures
        r == configures(t@, n as int),
{
    if !(t.is(n, "assignment") || t.is(n, "variable_declarator") || t.is(n, "const_item") || t.is(n, "static_item")) {
        return false;
    }
    let value = match t.child(n, "right") {
        Some(v) => Some(v),
        None => t.child(n, "value"),
    };
    match value {
        Some(v) => declarative(t, v),
        None => false,
    }
}

/// What each token of a file is part of.
pub fn contexts(t: &Tokens, lang: Language) -> (out: Vec<CloneKind>)
    requires
        t.ok(),
    ensures
        out@ == contexts_of(t@.list, t@.tree, lang),
{
    let mut out: Vec<CloneKind> = Vec::new();
    let mut i: usize = 0;
    while i < t.list.len()
        invariant
            i <= t.list.len(),
            i == out.len(),
            forall|j: int| 0 <= j < i ==> #[trigger] out@[j] == CloneKind::Logic,
        decreases t.list.len() - i,
    {
        out.push(CloneKind::Logic);
        i = i + 1;
    }
    assert(out@ =~= Seq::new(t.list@.len(), |i: int| CloneKind::Logic));
    let tree = match &t.tree {
        Some(tree) => tree,
        None => return out,
    };
    let units = unit_nodes(tree, lang);
    let ghost uv = units.deep_view();
    let ghost whole = heads_marked(out@, t.list@, tree@, uv, 0);
    let mut k: usize = 0;
    while k < units.len()
        invariant
            k <= units.len(),
            tree.ok(),
            uv == units.deep_view(),
            out.len() == t.list.len(),
            forall|i: int| 0 <= i < units.len() ==> (#[trigger] units@[i]).node < tree@.len(),
            whole == heads_marked(out@, t.list@, tree@, uv, k as int),
        decreases units.len() - k,
    {
        assert(uv[k as int] == units@[k as int].deep_view());
        assert(units@[k as int].node < tree@.len());
        let n: usize = units[k].node;
        assert(tree@[n as int] == tree.nodes@[n as int].deep_view());
        let end: usize = match tree.child(n, "body") {
            Some(b) => {
                assert(tree@[b as int] == tree.nodes@[b as int].deep_view());
                tree.nodes[b].start
            },
            None => tree.nodes[n].end,
        };
        mark(&mut out, t, tree.nodes[n].start, end, CloneKind::Signature);
        k = k + 1;
    }
    let ghost all = rest_marked(out@, t.list@, tree@, uv, 0);
    let mut n: usize = 0;
    while n < tree.len()
        invariant
            n <= tree@.len(),
            tree.ok(),
            uv == units.deep_view(),
            out.len() == t.list.len(),
            all == rest_marked(out@, t.list@, tree@, uv, n as int),
        decreases tree@.len() - n,
    {
        assert(crate::tree::node_ok(tree@, n as int));
        assert(tree@[n as int] == tree.nodes@[n as int].deep_view());
        let x = &tree.nodes[n];
        if (!x.named && n != 0) || is_unit_at(&units, n) {
            n = x.after;
        } else if tree.is(n, "function_signature_item") || tree.is(n, "method_signature") || tree.is(n, "function_signature")
            || tree.is(n, "abstract_method_signature") {
            mark(&mut out, t, x.start, x.end, CloneKind::Signature);
            n = x.after;
        } else if does_configure(tree, n) {
            mark(&mut out, t, x.start, x.end, CloneKind::Configuration);
            n = x.after;
        } else {
            n = n + 1;
        }
    }
    out
}

} // verus!
