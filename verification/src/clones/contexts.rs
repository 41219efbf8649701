//! What kind of clone two runs are, stated over nodes and tokens.

use vstd::prelude::*;

use crate::clones::classify::{
    configures, count_kind, declares, declares_from, first_at, first_past, kind_of_pair, marked, signature_kind,
};
use crate::clones::families::{cluster_of, longest_run, narrowest, scope_of, with_pair, Edge, LinkView};
use crate::clones::detect::LocView;
use crate::clones::runs::{back, extended, forth, Run};
use crate::clones::tables::{
    commonest, entries_of, entry_kind, hash_count, kind_count, leaf_class, most_often, row_shape, shape_from,
    stretch_from, symbol_from, transparent, LevelView, ShapeView,
};
use crate::clones::tokens::Token;
use crate::clones::detect::CloneKind;
use crate::text::{holds, Chars};
use crate::tree::{child_of, tree_ok, Nodes};

verus! {

proof fn container_kinds_differ()
    ensures
        "match_block"@.len() == 11,
        "match_block"@[0] == 'm',
        "switch_body"@.len() == 11,
        "switch_body"@[0] == 's',
        "block"@.len() == 5,
        "match_statement"@.len() == 15,
{
    reveal_strlit("match_block");
    reveal_strlit("switch_body");
    reveal_strlit("block");
    reveal_strlit("match_statement");
}

// ---------- pairs ----------

/// Whether something is of a kind.
pub open spec fn of_kind(kind: CloneKind) -> spec_fn(CloneKind) -> bool {
    |k: CloneKind| k == kind
}

/// A share of a run is of a kind.
pub open spec fn mostly(s: Seq<CloneKind>, kind: CloneKind, share: usize) -> bool {
    s.filter(of_kind(kind)).len() * 1000000 >= share * s.len()
}

proof fn count_is_filter(s: Seq<CloneKind>, kind: CloneKind, n: int)
    requires
        0 <= n <= s.len(),
    ensures
        count_kind(s, kind, n) == s.take(n).filter(of_kind(kind)).len(),
    decreases n,
{
    reveal(Seq::filter);
    if n > 0 {
        count_is_filter(s, kind, n - 1);
        assert(s.take(n).drop_last() =~= s.take(n - 1));
    }
}

/// A clone is of signatures where both runs mostly are; else a table where both lie in one that is no
/// argument list; else of configuration where both runs mostly are; else a table where both lie in an
/// argument list; else logic.
pub proof fn a_clone_is_what_both_runs_are(a: Seq<CloneKind>, b: Seq<CloneKind>, table: Option<Chars>, share: usize)
    ensures
        ({
            let r = kind_of_pair(a, b, table, share);
            let signatures = mostly(a, CloneKind::Signature, share) && mostly(b, CloneKind::Signature, share);
            let configures = mostly(a, CloneKind::Configuration, share) && mostly(b, CloneKind::Configuration, share);
            let arguments = table == Some("argument_list"@) || table == Some("arguments"@);
            &&& r == CloneKind::Signature <==> signatures
            &&& r == CloneKind::Table <==> !signatures && table is Some && (!arguments || !configures)
            &&& r == CloneKind::Configuration <==> !signatures && configures && (table is None || arguments)
            &&& r == CloneKind::Logic <==> !signatures && !configures && table is None
        }),
{
    assert(a.take(a.len() as int) =~= a);
    assert(b.take(b.len() as int) =~= b);
    count_is_filter(a, CloneKind::Signature, a.len() as int);
    count_is_filter(b, CloneKind::Signature, b.len() as int);
    count_is_filter(a, CloneKind::Configuration, a.len() as int);
    count_is_filter(b, CloneKind::Configuration, b.len() as int);
}

// ---------- tokens ----------

/// Tokens stand one after another.
pub open spec fn in_order(list: Seq<Token>) -> bool {
    &&& forall|i: int, j: int| 0 <= i < j < list.len() ==> (#[trigger] list[i]).start < (#[trigger] list[j]).start
    &&& forall|i: int, j: int| 0 <= i < j < list.len() ==> (#[trigger] list[i]).end < (#[trigger] list[j]).end
}

proof fn first_at_is_bound(list: Seq<Token>, start: usize, i: int)
    requires
        0 <= i <= list.len(),
        in_order(list),
        forall|j: int| 0 <= j < i ==> (#[trigger] list[j]).start < start,
    ensures
        i <= first_at(list, start, i) <= list.len(),
        forall|j: int| 0 <= j < list.len() ==> (j >= first_at(list, start, i) <==> (#[trigger] list[j]).start >= start),
    decreases list.len() - i,
{
    if i < list.len() && list[i].start < start {
        first_at_is_bound(list, start, i + 1);
    }
}

proof fn first_past_is_bound(list: Seq<Token>, end: usize, i: int)
    requires
        0 <= i <= list.len(),
        in_order(list),
        forall|j: int| 0 <= j < i ==> (#[trigger] list[j]).end <= end,
    ensures
        i <= first_past(list, end, i) <= list.len(),
        forall|j: int| 0 <= j < list.len() ==> (j < first_past(list, end, i) <==> (#[trigger] list[j]).end <= end),
    decreases list.len() - i,
{
    if i < list.len() && list[i].end <= end {
        first_past_is_bound(list, end, i + 1);
    }
}

/// The tokens that lie in a range of bytes are marked, and no others.
pub proof fn the_tokens_of_a_range_are_marked(s: Seq<CloneKind>, list: Seq<Token>, start: usize, end: usize, kind: CloneKind, i: int)
    requires
        s.len() == list.len(),
        in_order(list),
        0 <= i < list.len(),
    ensures
        marked(s, list, start, end, kind)[i] == (if start <= list[i].start && list[i].end <= end { kind } else { s[i] }),
{
    first_at_is_bound(list, start, 0);
    first_past_is_bound(list, end, 0);
}

// ---------- configuration ----------

/// A node that computes: what holds it is no configuration.
pub open spec fn computes(t: Nodes, n: int) -> bool {
    let k = t[n].kind;
    ||| holds(k, "comprehension"@)
    ||| k == "lambda"@
    ||| k == "arrow_function"@
    ||| k == "function_expression"@
    ||| k == "await"@
    ||| k == "await_expression"@
    ||| k == "if_expression"@
    ||| k == "conditional_expression"@
    ||| k == "block"@
    ||| (k == "call"@ || k == "call_expression"@) && (child_of(t, n, "function"@) is None || (child_of(t, n, "function"@) matches Some(f) && !(
    crate::clones::classify::constructor(t[f as int].text))))
}

proof fn computing_is_seen(t: Nodes, n: int, end: int, top: int, j: int)
    requires
        tree_ok(t),
        0 <= n <= j < end <= t.len(),
        t[j].named || j == top,
        computes(t, j),
        forall|a: int| n <= a < j && !t[a].named && a != top ==> (#[trigger] t[a]).after <= j,
    ensures
        !declares_from(t, n, end, top),
    decreases j - n,
{
    assert(crate::tree::node_ok(t, n));
    if n < j {
        if !t[n].named && n != top {
            computing_is_seen(t, t[n].after as int, end, top, j);
        } else {
            computing_is_seen(t, n + 1, end, top, j);
        }
    }
}

/// A binding whose value computes anywhere is no configuration.
pub proof fn what_computes_configures_nothing(t: Nodes, n: int, v: usize, j: int)
    requires
        tree_ok(t),
        child_of(t, n, "right"@) == Some(v) || child_of(t, n, "right"@) is None && child_of(t, n, "value"@) == Some(v),
        v <= j < t[v as int].after,
        v < t.len(),
        t[j].named || j == v,
        computes(t, j),
        forall|a: int| v <= a < j && !t[a].named && a != v ==> (#[trigger] t[a]).after <= j,
    ensures
        !configures(t, n),
{
    assert(crate::tree::node_ok(t, v as int));
    computing_is_seen(t, v as int, t[v as int].after as int, v as int, j);
}

proof fn nothing_computes(t: Nodes, n: int, end: int, top: int)
    requires
        0 <= n,
        forall|a: int| n <= a < end && (t[a].named || a == top) ==> !#[trigger] computes(t, a),
    ensures
        declares_from(t, n, end, top),
    decreases t.len() - n,
{
    if n < end && end <= t.len() {
        if !t[n].named && n != top {
            let after = t[n].after as int;
            if n < after <= t.len() {
                nothing_computes(t, after, end, top);
            }
        } else {
            assert(!computes(t, n));
            assert(declares(t, n));
            nothing_computes(t, n + 1, end, top);
        }
    }
}

/// A binding whose value computes nothing is configuration: an assignment, a variable, a constant or a
/// static.
pub proof fn what_computes_nothing_configures(t: Nodes, n: int, v: usize)
    requires
        t[n].kind == "assignment"@ || t[n].kind == "variable_declarator"@ || t[n].kind == "const_item"@ || t[n].kind == "static_item"@,
        child_of(t, n, "right"@) == Some(v) || child_of(t, n, "right"@) is None && child_of(t, n, "value"@) == Some(v),
        forall|a: int| v <= a < t[v as int].after && (t[a].named || a == v) ==> !#[trigger] computes(t, a),
    ensures
        configures(t, n),
{
    nothing_computes(t, v as int, t[v as int].after as int, v as int);
}

/// A declaration without a body is a signature.
pub proof fn a_declaration_without_a_body_is_a_signature(k: Chars)
    ensures
        signature_kind(k) <==> k == "function_signature_item"@ || k == "method_signature"@ || k == "function_signature"@ || k
            == "abstract_method_signature"@,
{
}

// ---------- tables ----------

/// The entries of a `match` are its arms, those of a `switch` its cases and those of a Python `match`
/// its clauses, where there are any.
pub proof fn a_match_has_arms(t: Nodes, chain: Seq<LevelView>, i: int)
    requires
        0 <= i < chain.len(),
    ensures
        ({
            let k = t[chain[i].node as int].kind;
            let has = |kind: Chars| kind_count(t, chain[i].kids, kind) > 0;
            &&& k == "match_block"@ && has("match_arm"@) ==> entry_kind(t, chain, i) == "match_arm"@
            &&& k == "switch_body"@ && has("switch_case"@) ==> entry_kind(t, chain, i) == "switch_case"@
            &&& k == "block"@ && i > 0 && t[chain[i - 1].node as int].kind == "match_statement"@ && has("case_clause"@) ==> entry_kind(
                t,
                chain,
                i,
            ) == "case_clause"@
        }),
{
    container_kinds_differ();
}

proof fn counts_are_positive(t: Nodes, kids: Seq<usize>, n: int, j: int)
    requires
        0 <= j < n <= kids.len(),
    ensures
        kind_count(t, kids.take(n), t[kids[j] as int].kind) > 0,
    decreases n,
{
    let less = kids.take(n);
    assert(less.drop_last() =~= kids.take(n - 1));
    assert(less.last() == kids[n - 1]);
    if j < n - 1 {
        counts_are_positive(t, kids, n - 1, j);
    }
}

proof fn counted_has(t: Nodes, kids: Seq<usize>, n: int, k: Chars)
    requires
        0 <= n <= kids.len(),
        kind_count(t, kids.take(n), k) > 0,
    ensures
        exists|j: int| 0 <= j < n && t[#[trigger] kids[j] as int].kind == k,
    decreases n,
{
    if n > 0 {
        let less = kids.take(n);
        assert(less.drop_last() =~= kids.take(n - 1));
        assert(less.last() == kids[n - 1]);
        if t[kids[n - 1] as int].kind != k {
            counted_has(t, kids, n - 1, k);
        }
    }
}

proof fn commonest_is_best(t: Nodes, kids: Seq<usize>, n: int)
    requires
        0 <= n <= kids.len(),
    ensures
        n > 0 ==> commonest(t, kids, n) is Some,
        commonest(t, kids, n) matches Some(b) ==> forall|j: int|
            0 <= j < n ==> kind_count(t, kids, t[#[trigger] kids[j] as int].kind) <= kind_count(t, kids, b),
    decreases n,
{
    if n > 0 {
        commonest_is_best(t, kids, n - 1);
        let k = t[kids[n - 1] as int].kind;
        if kind_count(t, kids.take(n - 1), k) > 0 {
            counted_has(t, kids, n - 1, k);
        }
    }
}

/// In any other container the entries are of the kind that most of its parts are.
pub proof fn other_entries_are_of_the_commonest_kind(t: Nodes, chain: Seq<LevelView>, i: int, j: int)
    requires
        0 <= i < chain.len(),
        0 <= j < chain[i].kids.len(),
        ({
            let k = t[chain[i].node as int].kind;
            k != "match_block"@ && k != "switch_body"@ && k != "block"@
        }),
    ensures
        kind_count(t, chain[i].kids, t[chain[i].kids[j] as int].kind) <= kind_count(t, chain[i].kids, entry_kind(t, chain, i)),
{
    let kids = chain[i].kids;
    commonest_is_best(t, kids, kids.len() as int);
}

/// A stretch is of one kind.
spec fn one_kind(t: Nodes, s: Seq<usize>, kind: Chars) -> bool {
    forall|i: int| 0 <= i < s.len() ==> t[#[trigger] s[i] as int].kind == kind
}

proof fn stretch_is_of_one_kind(t: Nodes, kids: Seq<usize>, kind: Chars, k: int, best: Seq<usize>, run: Seq<usize>)
    requires
        one_kind(t, best, kind),
        one_kind(t, run, kind),
    ensures
        one_kind(t, stretch_from(t, kids, kind, k, best, run), kind),
    decreases kids.len() - k,
{
    if 0 <= k < kids.len() {
        let longer = if run.len() > best.len() { run } else { best };
        if t[kids[k] as int].kind == kind {
            let next = run.push(kids[k]);
            assert forall|i: int| 0 <= i < next.len() implies t[#[trigger] next[i] as int].kind == kind by {
                if i < run.len() {
                    assert(next[i] == run[i]);
                }
            }
            stretch_is_of_one_kind(t, kids, kind, k + 1, best, next);
        } else {
            stretch_is_of_one_kind(t, kids, kind, k + 1, longer, Seq::empty());
        }
    }
}

proof fn stretch_is_long(t: Nodes, kids: Seq<usize>, kind: Chars, k: int, best: Seq<usize>, run: Seq<usize>)
    ensures
        stretch_from(t, kids, kind, k, best, run).len() >= best.len(),
        stretch_from(t, kids, kind, k, best, run).len() >= run.len(),
    decreases kids.len() - k,
{
    if 0 <= k < kids.len() {
        let longer = if run.len() > best.len() { run } else { best };
        if t[kids[k] as int].kind == kind {
            stretch_is_long(t, kids, kind, k + 1, best, run.push(kids[k]));
        } else {
            stretch_is_long(t, kids, kind, k + 1, longer, Seq::empty());
        }
    }
}

proof fn stretch_is_longest(t: Nodes, kids: Seq<usize>, kind: Chars, k: int, best: Seq<usize>, run: Seq<usize>, a: int, b: int)
    requires
        0 <= a <= b <= kids.len(),
        0 <= k <= b,
        forall|i: int| a <= i < b ==> t[#[trigger] kids[i] as int].kind == kind,
        k > a ==> run.len() >= k - a,
    ensures
        stretch_from(t, kids, kind, k, best, run).len() >= b - a,
    decreases b - k,
{
    let longer = if run.len() > best.len() { run } else { best };
    if k == b {
        stretch_is_long(t, kids, kind, k, best, run);
    } else if t[kids[k] as int].kind == kind {
        stretch_is_longest(t, kids, kind, k + 1, best, run.push(kids[k]), a, b);
    } else {
        stretch_is_longest(t, kids, kind, k + 1, longer, Seq::empty(), a, b);
    }
}

/// The entries of a table are of one kind, not fewer than the settings ask for, and no stretch of parts
/// of that kind is longer.
pub proof fn entries_are_the_longest_stretch(t: Nodes, chain: Seq<LevelView>, i: int, min: usize, x: Seq<usize>, a: int, b: int)
    requires
        0 <= i < chain.len(),
        entries_of(t, chain, i, min) == Some(x),
        0 <= a <= b <= chain[i].kids.len(),
        forall|j: int| a <= j < b ==> t[#[trigger] chain[i].kids[j] as int].kind == entry_kind(t, chain, i),
    ensures
        x.len() >= min,
        x.len() >= 1,
        x.len() >= b - a,
        forall|j: int| 0 <= j < x.len() ==> t[#[trigger] x[j] as int].kind == entry_kind(t, chain, i),
{
    let kids = chain[i].kids;
    let kind = entry_kind(t, chain, i);
    stretch_is_of_one_kind(t, kids, kind, 0, Seq::empty(), Seq::empty());
    stretch_is_longest(t, kids, kind, 0, Seq::empty(), Seq::empty(), a, b);
}

/// A node whose parts are not looked at, or that is passed over.
spec fn passed_over(t: Nodes, entry: int, j: int) -> bool {
    !t[j].named || (transparent(t[j].kind) && j != entry) || leaf_class(t[j].kind) is Some
}

proof fn control_stays(t: Nodes, entry: int, j: int, end: int, max: usize, control: Seq<Chars>, s: ShapeView)
    requires
        s.control || s.nodes > max,
    ensures
        shape_from(t, entry, j, end, max, control, s).control || shape_from(t, entry, j, end, max, control, s).nodes > max,
    decreases t.len() - j,
{
    if 0 <= j < end && end <= t.len() {
        let k = t[j].kind;
        let after = t[j].after as int;
        if !t[j].named || (transparent(k) && j != entry) {
            if j < after <= t.len() {
                control_stays(t, entry, after, end, max, control, s);
            }
        } else if s.nodes + 1 <= max {
            let leaf = leaf_class(k);
            let next = ShapeView {
                writes: s.writes.push(crate::clones::tables::depth_bytes(crate::clones::tables::depth_below(t, j, entry))).push(
                    vstd::utf8::encode_utf8(
                        match leaf {
                            Some(c) => c,
                            None => k,
                        },
                    ),
                ),
                nodes: s.nodes + 1,
                control: s.control || control.contains(k),
            };
            if leaf is Some {
                if j < after <= t.len() {
                    control_stays(t, entry, after, end, max, control, next);
                }
            } else {
                control_stays(t, entry, j + 1, end, max, control, next);
            }
        }
    }
}

proof fn control_is_seen(t: Nodes, entry: int, j: int, end: int, max: usize, control: Seq<Chars>, s: ShapeView, x: int)
    requires
        tree_ok(t),
        0 <= j <= x < end <= t.len(),
        t[x].named,
        !(transparent(t[x].kind) && x != entry),
        control.contains(t[x].kind),
        forall|a: int| j <= a < x && passed_over(t, entry, a) ==> (#[trigger] t[a]).after <= x,
    ensures
        shape_from(t, entry, j, end, max, control, s).control || shape_from(t, entry, j, end, max, control, s).nodes > max,
    decreases x - j,
{
    assert(crate::tree::node_ok(t, j));
    let k = t[j].kind;
    let after = t[j].after as int;
    if !t[j].named || (transparent(k) && j != entry) {
        control_is_seen(t, entry, after, end, max, control, s, x);
    } else if s.nodes + 1 <= max {
        let leaf = leaf_class(k);
        let next = ShapeView {
            writes: s.writes.push(crate::clones::tables::depth_bytes(crate::clones::tables::depth_below(t, j, entry))).push(
                vstd::utf8::encode_utf8(
                    match leaf {
                        Some(c) => c,
                        None => k,
                    },
                ),
            ),
            nodes: s.nodes + 1,
            control: s.control || control.contains(k),
        };
        if j == x {
            if leaf is Some {
                control_stays(t, entry, after, end, max, control, next);
            } else {
                control_stays(t, entry, j + 1, end, max, control, next);
            }
        } else if leaf is Some {
            control_is_seen(t, entry, after, end, max, control, next, x);
        } else {
            control_is_seen(t, entry, j + 1, end, max, control, next, x);
        }
    }
}

/// An entry in which a control node stands is no row of a table.
pub proof fn an_entry_with_control_is_no_row(t: Nodes, entry: usize, max: usize, control: Seq<Chars>, x: int)
    requires
        tree_ok(t),
        entry <= x < t[entry as int].after,
        entry < t.len(),
        t[x].named,
        !(transparent(t[x].kind) && x != entry),
        control.contains(t[x].kind),
        forall|a: int|
            entry <= a < x && (!t[a].named || (transparent(t[a].kind) && a != entry) || leaf_class(t[a].kind) is Some) ==> (#[trigger] t[a]).after
                <= x,
    ensures
        row_shape(t, entry, max, control) is None,
{
    assert(crate::tree::node_ok(t, entry as int));
    control_is_seen(
        t,
        entry as int,
        entry as int,
        t[entry as int].after as int,
        max,
        control,
        ShapeView { writes: Seq::empty(), nodes: 0, control: false },
        x,
    );
}

/// The commonest shape is one of the shapes, and no shape is commoner.
pub proof fn the_commonest_shape_is_counted(s: Seq<u64>, n: int)
    requires
        0 <= n <= s.len(),
    ensures
        forall|i: int| 0 <= i < n ==> hash_count(s, #[trigger] s[i]) <= most_often(s, n),
        n > 0 ==> exists|i: int| 0 <= i < n && hash_count(s, #[trigger] s[i]) == most_often(s, n),
    decreases n,
{
    if n > 0 {
        the_commonest_shape_is_counted(s, n - 1);
        if n == 1 {
            assert(most_often(s, 0) == 0);
            assert(hash_count(s, s[0]) == most_often(s, 1));
        } else if hash_count(s, s[n - 1]) > most_often(s, n - 1) {
            assert(hash_count(s, s[n - 1]) == most_often(s, n));
        } else {
            let i = choose|i: int| 0 <= i < n - 1 && hash_count(s, #[trigger] s[i]) == most_often(s, n - 1);
            assert(hash_count(s, s[i]) == most_often(s, n));
        }
    }
}

/// A run is known by the innermost name around it: that of a definition, of a `let`, of an assignment or
/// of the type of an `impl`.
pub proof fn a_run_is_known_by_its_innermost_name(t: Nodes, chain: Seq<LevelView>, i: int, n: usize)
    requires
        0 <= i < chain.len(),
        ({
            let p = chain[i].node as int;
            let k = t[p].kind;
            if k == "let_declaration"@ {
                child_of(t, p, "pattern"@) == Some(n)
            } else if k == "assignment"@ {
                child_of(t, p, "left"@) == Some(n)
            } else if k == "impl_item"@ {
                child_of(t, p, "type"@) == Some(n)
            } else {
                child_of(t, p, "name"@) == Some(n)
            }
        }),
        holds(t[n as int].kind, "identifier"@),
    ensures
        symbol_from(t, chain, i) == Some(t[n as int].text),
{
}

// ---------- runs and their scopes ----------

proof fn back_is_as_far(x: Seq<u64>, y: Seq<u64>, i: int, j: int)
    requires
        0 <= i <= x.len(),
        0 <= j <= y.len(),
    ensures
        ({
            let n = back(x, y, i, j);
            &&& n <= i && n <= j
            &&& forall|k: int| 1 <= k <= n ==> #[trigger] x[i - k] == y[j - k]
            &&& n == i || n == j || x[i - n - 1] != y[j - n - 1]
        }),
    decreases i,
{
    if 0 < i && 0 < j && x[i - 1] == y[j - 1] {
        back_is_as_far(x, y, i - 1, j - 1);
        let n = back(x, y, i, j);
        assert forall|k: int| 1 <= k <= n implies #[trigger] x[i - k] == y[j - k] by {
            if k > 1 {
                assert(x[(i - 1) - (k - 1)] == y[(j - 1) - (k - 1)]);
            }
        }
    }
}

proof fn forth_is_as_far(x: Seq<u64>, y: Seq<u64>, i: int, j: int)
    requires
        0 <= i <= x.len(),
        0 <= j <= y.len(),
    ensures
        ({
            let n = forth(x, y, i, j);
            &&& i + n <= x.len() && j + n <= y.len()
            &&& forall|k: int| 0 <= k < n ==> #[trigger] x[i + k] == y[j + k]
            &&& i + n == x.len() || j + n == y.len() || x[i + n] != y[j + n]
        }),
    decreases x.len() - i,
{
    if i < x.len() && j < y.len() && x[i] == y[j] {
        forth_is_as_far(x, y, i + 1, j + 1);
        let n = forth(x, y, i, j);
        assert forall|k: int| 0 <= k < n implies #[trigger] x[i + k] == y[j + k] by {
            if k > 0 {
                assert(x[(i + 1) + (k - 1)] == y[(j + 1) + (k - 1)]);
            }
        }
    }
}

/// A run is drawn out as far as the tokens of both sides agree, at both ends, and no further.
pub proof fn a_run_is_drawn_out(x: Seq<u64>, y: Seq<u64>, r: Run)
    requires
        r.a + r.len <= x.len() <= usize::MAX,
        r.b + r.len <= y.len() <= usize::MAX,
        forall|k: int| 0 <= k < r.len ==> #[trigger] x[r.a + k] == y[r.b + k],
    ensures
        ({
            let e = extended(x, y, r);
            &&& e.a <= r.a && e.b <= r.b && e.a + e.len >= r.a + r.len && e.a - e.b == r.a - r.b
            &&& e.a + e.len <= x.len() && e.b + e.len <= y.len()
            &&& forall|k: int| 0 <= k < e.len ==> #[trigger] x[e.a + k] == y[e.b + k]
            &&& e.a == 0 || e.b == 0 || x[e.a - 1] != y[e.b - 1]
            &&& e.a + e.len == x.len() || e.b + e.len == y.len() || x[e.a + e.len] != y[e.b + e.len]
        }),
{
    back_is_as_far(x, y, r.a as int, r.b as int);
    forth_is_as_far(x, y, r.a + r.len, r.b + r.len);
    let e = extended(x, y, r);
    let n = back(x, y, r.a as int, r.b as int) as int;
    assert forall|k: int| 0 <= k < e.len implies #[trigger] x[e.a + k] == y[e.b + k] by {
        if k < n {
            assert(x[r.a - (n - k)] == y[r.b - (n - k)]);
        } else if k < n + r.len {
            assert(x[r.a + (k - n)] == y[r.b + (k - n)]);
        } else {
            let d = k - n - r.len;
            assert(x[(r.a + r.len) + d] == y[(r.b + r.len) + d]);
        }
    }
}

/// A function holds a place.
pub open spec fn is_around(u: LocView, side: LocView) -> bool {
    u.start_line <= side.start_line && side.end_line <= u.end_line
}

proof fn narrowest_is_narrow(units: Seq<LocView>, side: LocView, n: int)
    requires
        0 <= n <= units.len(),
    ensures
        match narrowest(units, side, n) {
            Some(i) => 0 <= i < n && is_around(units[i], side) && forall|j: int|
                0 <= j < n && is_around(#[trigger] units[j], side) ==> units[j].end_line - units[j].start_line >= units[i].end_line
                    - units[i].start_line,
            None => forall|j: int| 0 <= j < n ==> !is_around(#[trigger] units[j], side),
        },
    decreases n,
{
    if n > 0 {
        narrowest_is_narrow(units, side, n - 1);
    }
}

/// A side of a clone belongs to the narrowest function around it.
pub proof fn a_side_belongs_to_the_narrowest_function(side: LocView, units: Seq<LocView>, list: Seq<Token>, j: int)
    requires
        0 <= j < units.len(),
        is_around(units[j], side),
    ensures
        units.contains(scope_of(side, units, list)),
        is_around(scope_of(side, units, list), side),
        scope_of(side, units, list).end_line - scope_of(side, units, list).start_line <= units[j].end_line - units[j].start_line,
{
    narrowest_is_narrow(units, side, units.len() as int);
    assert(is_around(units[j], side));
    let i = narrowest(units, side, units.len() as int)->0;
    assert(units[i] == scope_of(side, units, list));
}

proof fn longest_run_is_longest(edges: Seq<Edge>, n: int)
    requires
        0 <= n <= edges.len(),
    ensures
        forall|i: int| 0 <= i < n ==> (#[trigger] edges[i]).tokens <= longest_run(edges, n),
        n > 0 ==> exists|i: int| 0 <= i < n && (#[trigger] edges[i]).tokens == longest_run(edges, n),
    decreases n,
{
    if n > 0 {
        longest_run_is_longest(edges, n - 1);
        if n == 1 {
            assert(longest_run(edges, 0) == 0);
            assert(edges[0].tokens == longest_run(edges, 1));
        } else if edges[n - 1].tokens > longest_run(edges, n - 1) {
            assert(edges[n - 1].tokens == longest_run(edges, n));
        } else {
            let i = choose|i: int| 0 <= i < n - 1 && (#[trigger] edges[i]).tokens == longest_run(edges, n - 1);
            assert(edges[i].tokens == longest_run(edges, n));
        }
    }
}

/// A family is as long as its longest pair.
pub proof fn a_family_is_as_long_as_its_longest_pair(s: LinkView, root: int)
    ensures
        forall|i: int|
            0 <= i < cluster_of(s, root).edges.len() ==> (#[trigger] cluster_of(s, root).edges[i]).tokens <= cluster_of(s, root).max,
        cluster_of(s, root).edges.len() > 0 ==> exists|i: int|
            0 <= i < cluster_of(s, root).edges.len() && (#[trigger] cluster_of(s, root).edges[i]).tokens == cluster_of(s, root).max,
{
    let edges = cluster_of(s, root).edges;
    longest_run_is_longest(edges, edges.len() as int);
}

/// Only pairs of logic make families.
pub proof fn only_logic_makes_families(
    s: LinkView,
    files: Seq<crate::discover::SourceFile>,
    toks: Seq<crate::clones::tokens::TokensView>,
    p: crate::clones::detect::PairView,
    n: usize,
)
    requires
        p.kind == CloneKind::Table || p.kind == CloneKind::Signature || p.kind == CloneKind::Configuration,
    ensures
        with_pair(s, files, toks, p, n) == s,
{
}

} // verus!
