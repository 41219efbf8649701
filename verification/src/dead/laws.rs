//! What a walk collects, stated over the nodes of a tree.

use vstd::prelude::*;

use crate::config::{Dead, DeadShapes};
use crate::dead::index::{counted, side_of, FileIndex};
use crate::dead::shapes::{field_shape, variant_shape};
use crate::dead::walk::{
    ctx_at, item_kind, no_facts, node_step, python_step, rust_fn, rust_inner, rust_item, rust_leaf, rust_step, top_ctx, ts_declarator,
    ts_declarators, ts_step, ts_type_kind, walked, walked_from, Ctx, FactsView, MemberDef, Visibility,
};
use crate::discover::SourceFile;
use crate::lang::Language;
use crate::regions::{within, TestRegion};
use crate::text::Chars;
use crate::tree::{child_of, named_at, named_kids, node_ok, tree_ok, Nodes};

verus! {

/// A tree that is walked, and how.
pub struct Reading {
    pub tree: Nodes,
    pub in_test: bool,
    pub regions: Seq<TestRegion>,
    pub lang: Language,
    pub cfg: Dead,
    pub path: Chars,
}

/// What the walk of a tree collects.
pub open spec fn facts(w: Reading) -> FactsView {
    walked(w.tree, w.in_test, w.regions, w.lang, w.cfg, w.path)
}

// ---------- the course of a walk ----------

/// What the first `n` nodes add, and what each of them hands to its children.
spec fn run(w: Reading, n: int) -> (FactsView, Seq<Ctx>)
    decreases n,
{
    if n <= 0 {
        (no_facts(), Seq::empty())
    } else {
        let (st, bases) = run(w, n - 1);
        let (next, base) = node_step(w.tree, n - 1, here(w, n - 1, bases), st, w.lang, w.cfg, w.path);
        (next, bases.push(base))
    }
}

/// The context of node `i`.
spec fn here(w: Reading, i: int, bases: Seq<Ctx>) -> Ctx {
    ctx_at(w.tree, i, bases, top_ctx(w.in_test), w.regions, w.lang)
}

/// The context of node `i`.
spec fn ctx_of(w: Reading, i: int) -> Ctx {
    here(w, i, run(w, i).1)
}

/// What node `i` makes of what was collected before it.
spec fn step(w: Reading, i: int) -> (FactsView, Ctx) {
    node_step(w.tree, i, ctx_of(w, i), run(w, i).0, w.lang, w.cfg, w.path)
}

proof fn run_is_walk(w: Reading, n: int)
    requires
        0 <= n <= w.tree.len(),
    ensures
        facts(w) == walked_from(
            w.tree,
            n,
            run(w, n).0,
            run(w, n).1,
            top_ctx(w.in_test),
            w.regions,
            w.lang,
            w.cfg,
            w.path,
        ),
        run(w, n).1.len() == n,
    decreases n,
{
    if n > 0 {
        run_is_walk(w, n - 1);
    }
}

/// One list begins another.
spec fn begins<A>(a: Seq<A>, b: Seq<A>) -> bool {
    a.len() <= b.len() && forall|i: int| 0 <= i < a.len() ==> #[trigger] b[i] == a[i]
}

/// Nothing that was collected is lost.
#[verifier::opaque]
spec fn grows(a: FactsView, b: FactsView) -> bool {
    &&& begins(a.defs, b.defs)
    &&& begins(a.mentions, b.mentions)
    &&& begins(a.docs, b.docs)
    &&& begins(a.types, b.types)
    &&& begins(a.fields, b.fields)
    &&& begins(a.variants, b.variants)
    &&& begins(a.reads, b.reads)
    &&& begins(a.writes, b.writes)
    &&& begins(a.ctors, b.ctors)
    &&& begins(a.handled, b.handled)
    &&& begins(a.wildcards, b.wildcards)
    &&& begins(a.impls, b.impls)
}

proof fn growing_is_transitive(a: FactsView, b: FactsView, c: FactsView)
    requires
        grows(a, b),
        grows(b, c),
    ensures
        grows(a, c),
{
    reveal(grows);
    begins_on(a.defs, b.defs, c.defs);
    begins_on(a.mentions, b.mentions, c.mentions);
    begins_on(a.docs, b.docs, c.docs);
    begins_on(a.types, b.types, c.types);
    begins_on(a.fields, b.fields, c.fields);
    begins_on(a.variants, b.variants, c.variants);
    begins_on(a.reads, b.reads, c.reads);
    begins_on(a.writes, b.writes, c.writes);
    begins_on(a.ctors, b.ctors, c.ctors);
    begins_on(a.handled, b.handled, c.handled);
    begins_on(a.wildcards, b.wildcards, c.wildcards);
    begins_on(a.impls, b.impls, c.impls);
}

proof fn begins_on<A>(a: Seq<A>, b: Seq<A>, c: Seq<A>)
    requires
        begins(a, b),
        begins(b, c),
    ensures
        begins(a, c),
{
    assert forall|i: int| 0 <= i < a.len() implies #[trigger] c[i] == a[i] by {
        assert(b[i] == a[i]);
    }
}

proof fn declarator_grows(t: Nodes, d: usize, ctx: Ctx, st: FactsView, cfg: Dead, path: Chars)
    ensures
        grows(st, ts_declarator(t, d, ctx, st, cfg, path)),
{
    reveal(grows);
}

proof fn declarators_grow(t: Nodes, kids: Seq<usize>, k: int, ctx: Ctx, st: FactsView, cfg: Dead, path: Chars)
    ensures
        grows(st, ts_declarators(t, kids, k, ctx, st, cfg, path)),
    decreases kids.len() - k,
{
    if 0 <= k < kids.len() {
        let next = ts_declarator(t, kids[k], ctx, st, cfg, path);
        declarator_grows(t, kids[k], ctx, st, cfg, path);
        declarators_grow(t, kids, k + 1, ctx, next, cfg, path);
        growing_is_transitive(st, next, ts_declarators(t, kids, k + 1, ctx, next, cfg, path));
    } else {
        reveal(grows);
    }
}

proof fn rust_leaf_grows(t: Nodes, i: int, ctx: Ctx, st: FactsView, cfg: Dead)
    ensures
        grows(st, rust_leaf(t, i, ctx, st, cfg)),
{
    reveal(grows);
}

proof fn rust_item_grows(t: Nodes, i: int, ctx: Ctx, st: FactsView, cfg: Dead, path: Chars)
    ensures
        grows(st, rust_item(t, i, ctx, st, cfg, path).0),
        grows(st, rust_fn(t, i, ctx, st, cfg, path)),
{
    reveal(grows);
}

#[verifier::spinoff_prover]
#[verifier::rlimit(60)]
proof fn rust_inner_grows(t: Nodes, i: int, ctx: Ctx, st: FactsView)
    ensures
        grows(st, rust_inner(t, i, ctx, st)),
{
    reveal(grows);
}

#[verifier::spinoff_prover]
#[verifier::rlimit(60)]
proof fn rust_step_grows(t: Nodes, i: int, ctx: Ctx, st: FactsView, cfg: Dead, path: Chars)
    ensures
        grows(st, rust_step(t, i, ctx, st, cfg, path).0),
{
    rust_leaf_grows(t, i, ctx, st, cfg);
    rust_item_grows(t, i, ctx, st, cfg, path);
    rust_inner_grows(t, i, ctx, st);
    let k = t[i].kind;
    if t[i].children.len() > 0 && !(k == "function_item"@ || k == "function_signature_item"@) && !item_kind(k) && k == "impl_item"@ {
        reveal(grows);
    }
}

#[verifier::spinoff_prover]
#[verifier::rlimit(60)]
proof fn ts_step_grows(t: Nodes, i: int, ctx: Ctx, st: FactsView, lang: Language, cfg: Dead, path: Chars)
    ensures
        grows(st, ts_step(t, i, ctx, st, lang, cfg, path).0),
{
    declarators_grow(t, named_kids(t, i), 0, ctx, st, cfg, path);
    let k = t[i].kind;
    if t[i].children.len() == 0 {
        reveal(grows);
    } else if !(k == "lexical_declaration"@ || k == "variable_declaration"@) {
        reveal(grows);
    } else if k == "function_declaration"@ || k == "generator_function_declaration"@ || ts_type_kind(k) {
        reveal(grows);
    }
}

#[verifier::spinoff_prover]
#[verifier::rlimit(60)]
proof fn python_step_grows(t: Nodes, i: int, ctx: Ctx, st: FactsView, cfg: Dead, path: Chars)
    ensures
        grows(st, python_step(t, i, ctx, st, cfg, path).0),
{
    reveal(grows);
}

proof fn step_grows(t: Nodes, i: int, ctx: Ctx, st: FactsView, lang: Language, cfg: Dead, path: Chars)
    ensures
        grows(st, node_step(t, i, ctx, st, lang, cfg, path).0),
{
    rust_step_grows(t, i, ctx, st, cfg, path);
    python_step_grows(t, i, ctx, st, cfg, path);
    ts_step_grows(t, i, ctx, st, lang, cfg, path);
}

proof fn run_grows(w: Reading, n: int, m: int)
    requires
        0 <= n <= m,
    ensures
        grows(run(w, n).0, run(w, m).0),
    decreases m - n,
{
    if n < m {
        run_grows(w, n, m - 1);
        step_grows(w.tree, m - 1, ctx_of(w, m - 1), run(w, m - 1).0, w.lang, w.cfg, w.path);
        growing_is_transitive(run(w, n).0, run(w, m - 1).0, run(w, m).0);
    } else {
        reveal(grows);
    }
}

/// What a node adds is collected.
proof fn step_is_kept(w: Reading, i: int)
    requires
        0 <= i < w.tree.len(),
    ensures
        begins(step(w, i).0.defs, facts(w).defs),
        begins(step(w, i).0.mentions, facts(w).mentions),
        begins(step(w, i).0.reads, facts(w).reads),
        begins(step(w, i).0.writes, facts(w).writes),
        begins(step(w, i).0.ctors, facts(w).ctors),
        begins(step(w, i).0.handled, facts(w).handled),
        begins(step(w, i).0.types, facts(w).types),
        begins(step(w, i).0.fields, facts(w).fields),
        begins(step(w, i).0.variants, facts(w).variants),
        begins(step(w, i).0.wildcards, facts(w).wildcards),
        begins(step(w, i).0.impls, facts(w).impls),
        begins(step(w, i).0.docs, facts(w).docs),
{
    let n = w.tree.len() as int;
    run_is_walk(w, n);
    run_is_walk(w, i);
    run_grows(w, i + 1, n);
    assert(run(w, i + 1).0 == step(w, i).0);
    reveal(grows);
}

/// Children start from what their parent hands down.
proof fn ctx_comes_from_parent(w: Reading, i: int)
    requires
        tree_ok(w.tree),
        0 <= i < w.tree.len(),
    ensures
        w.tree[i].parent matches Some(p) ==> p < i && run(w, i).1[p as int] == step(w, p as int).1,
{
    assert(node_ok(w.tree, i));
    if let Some(p) = w.tree[i].parent {
        base_is_kept(w, p as int, i);
    }
}

proof fn base_is_kept(w: Reading, p: int, n: int)
    requires
        0 <= p < n <= w.tree.len(),
    ensures
        run(w, n).1[p] == step(w, p).1,
    decreases n,
{
    run_is_walk(w, n);
    run_is_walk(w, n - 1);
    if p < n - 1 {
        base_is_kept(w, p, n - 1);
    } else {
        run_is_walk(w, p);
    }
}

proof fn rust_kinds()
    ensures
        "function_item"@.len() == 13,
        "function_item"@[0] == 'f',
        "function_item"@[1] == 'u',
        "function_signature_item"@.len() == 23,
        "function_signature_item"@[0] == 'f',
        "struct_item"@.len() == 11,
        "struct_item"@[2] == 'r',
        "enum_item"@.len() == 9,
        "enum_item"@[0] == 'e',
        "union_item"@.len() == 10,
        "union_item"@[0] == 'u',
        "trait_item"@.len() == 10,
        "trait_item"@[0] == 't',
        "trait_item"@[1] == 'r',
        "type_item"@.len() == 9,
        "type_item"@[0] == 't',
        "const_item"@.len() == 10,
        "const_item"@[0] == 'c',
        "static_item"@.len() == 11,
        "static_item"@[2] == 'a',
        "mod_item"@.len() == 8,
        "impl_item"@.len() == 9,
        "impl_item"@[0] == 'i',
        "field_declaration"@.len() == 17,
        "field_declaration"@[6] == 'd',
        "enum_variant"@.len() == 12,
        "enum_variant"@[0] == 'e',
        "field_expression"@.len() == 16,
        "field_expression"@[0] == 'f',
        "field_pattern"@.len() == 13,
        "field_pattern"@[0] == 'f',
        "field_pattern"@[1] == 'i',
        "field_initializer"@.len() == 17,
        "field_initializer"@[6] == 'i',
        "shorthand_field_initializer"@.len() == 27,
        "scoped_identifier"@.len() == 17,
        "scoped_identifier"@[6] == '_',
        "scoped_type_identifier"@.len() == 22,
        "use_wildcard"@.len() == 12,
        "use_wildcard"@[0] == 'u',
        "tuple_struct_pattern"@.len() == 20,
        "struct_pattern"@.len() == 14,
        "struct_pattern"@[0] == 's',
        "or_pattern"@.len() == 10,
        "or_pattern"@[0] == 'o',
        "slice_pattern"@.len() == 13,
        "slice_pattern"@[0] == 's',
        "slice_pattern"@[1] == 'l',
        "tuple_pattern"@.len() == 13,
        "tuple_pattern"@[0] == 't',
        "reference_pattern"@.len() == 17,
        "reference_pattern"@[6] == 'n',
        "ref_pattern"@.len() == 11,
        "ref_pattern"@[2] == 'f',
        "mut_pattern"@.len() == 11,
        "mut_pattern"@[2] == 't',
        "captured_pattern"@.len() == 16,
        "captured_pattern"@[0] == 'c',
        "range_pattern"@.len() == 13,
        "range_pattern"@[0] == 'r',
        "generic_pattern"@.len() == 15,
        "generic_pattern"@[0] == 'g',
        "remaining_field_pattern"@.len() == 23,
        "remaining_field_pattern"@[0] == 'r',
        "match_pattern"@.len() == 13,
        "match_pattern"@[0] == 'm',
        "let_declaration"@.len() == 15,
        "let_declaration"@[0] == 'l',
        "let_condition"@.len() == 13,
        "let_condition"@[0] == 'l',
        "for_expression"@.len() == 14,
        "for_expression"@[0] == 'f',
        "parameter"@.len() == 9,
        "parameter"@[0] == 'p',
        "closure_parameters"@.len() == 18,
        "assignment_expression"@.len() == 21,
        "compound_assignment_expr"@.len() == 24,
        "token_tree"@.len() == 10,
        "token_tree"@[0] == 't',
        "token_tree"@[1] == 'o',
        "use_declaration"@.len() == 15,
        "use_declaration"@[0] == 'u',
{
    reveal_strlit("function_item");
    reveal_strlit("function_signature_item");
    reveal_strlit("struct_item");
    reveal_strlit("enum_item");
    reveal_strlit("union_item");
    reveal_strlit("trait_item");
    reveal_strlit("type_item");
    reveal_strlit("const_item");
    reveal_strlit("static_item");
    reveal_strlit("mod_item");
    reveal_strlit("impl_item");
    reveal_strlit("field_declaration");
    reveal_strlit("enum_variant");
    reveal_strlit("field_expression");
    reveal_strlit("field_pattern");
    reveal_strlit("field_initializer");
    reveal_strlit("shorthand_field_initializer");
    reveal_strlit("scoped_identifier");
    reveal_strlit("scoped_type_identifier");
    reveal_strlit("use_wildcard");
    reveal_strlit("tuple_struct_pattern");
    reveal_strlit("struct_pattern");
    reveal_strlit("or_pattern");
    reveal_strlit("slice_pattern");
    reveal_strlit("tuple_pattern");
    reveal_strlit("reference_pattern");
    reveal_strlit("ref_pattern");
    reveal_strlit("mut_pattern");
    reveal_strlit("captured_pattern");
    reveal_strlit("range_pattern");
    reveal_strlit("generic_pattern");
    reveal_strlit("remaining_field_pattern");
    reveal_strlit("match_pattern");
    reveal_strlit("let_declaration");
    reveal_strlit("let_condition");
    reveal_strlit("for_expression");
    reveal_strlit("parameter");
    reveal_strlit("closure_parameters");
    reveal_strlit("assignment_expression");
    reveal_strlit("compound_assignment_expr");
    reveal_strlit("token_tree");
    reveal_strlit("use_declaration");
}

proof fn ts_kinds()
    ensures
        "function_declaration"@.len() == 20,
        "function_declaration"@[0] == 'f',
        "generator_function_declaration"@.len() == 30,
        "class_declaration"@.len() == 17,
        "class_declaration"@[0] == 'c',
        "abstract_class_declaration"@.len() == 26,
        "interface_declaration"@.len() == 21,
        "type_alias_declaration"@.len() == 22,
        "enum_declaration"@.len() == 16,
        "enum_declaration"@[1] == 'n',
        "lexical_declaration"@.len() == 19,
        "variable_declaration"@.len() == 20,
        "variable_declaration"@[0] == 'v',
        "method_definition"@.len() == 17,
        "method_definition"@[0] == 'm',
        "call_expression"@.len() == 15,
        "export_statement"@.len() == 16,
        "export_statement"@[1] == 'x',
        "import_statement"@.len() == 16,
        "import_statement"@[1] == 'm',
{
    reveal_strlit("function_declaration");
    reveal_strlit("generator_function_declaration");
    reveal_strlit("class_declaration");
    reveal_strlit("abstract_class_declaration");
    reveal_strlit("interface_declaration");
    reveal_strlit("type_alias_declaration");
    reveal_strlit("enum_declaration");
    reveal_strlit("lexical_declaration");
    reveal_strlit("variable_declaration");
    reveal_strlit("method_definition");
    reveal_strlit("call_expression");
    reveal_strlit("export_statement");
    reveal_strlit("import_statement");
}

// ---------- Rust: where a node stands ----------

/// Node `i` stands below a node of a kind.
pub open spec fn below(t: Nodes, i: int, kind: Chars) -> bool
    decreases i,
{
    match t[i].parent {
        Some(p) => 0 <= p < i && (t[p as int].kind == kind || below(t, p as int, kind)),
        None => false,
    }
}

/// A node whose children are patterns.
pub open spec fn holds_patterns(kind: Chars) -> bool {
    ||| kind == "tuple_struct_pattern"@
    ||| kind == "struct_pattern"@
    ||| kind == "or_pattern"@
    ||| kind == "field_pattern"@
    ||| kind == "slice_pattern"@
    ||| kind == "tuple_pattern"@
    ||| kind == "reference_pattern"@
    ||| kind == "ref_pattern"@
    ||| kind == "mut_pattern"@
    ||| kind == "captured_pattern"@
    ||| kind == "range_pattern"@
    ||| kind == "generic_pattern"@
    ||| kind == "remaining_field_pattern"@
}

/// Node `i` stands in a pattern, or in what may be one.
pub open spec fn maybe_pattern(t: Nodes, i: int) -> bool
    decreases i,
{
    match t[i].parent {
        Some(p) => {
            let k = t[p as int].kind;
            0 <= p < i && {
                ||| holds_patterns(k)
                ||| k == "match_pattern"@ || k == "closure_parameters"@
                ||| t[i].field == "pattern"@ && (k == "let_declaration"@ || k == "let_condition"@ || k == "for_expression"@ || k
                    == "parameter"@)
                ||| maybe_pattern(t, p as int)
            }
        },
        None => false,
    }
}

#[verifier::spinoff_prover]
#[verifier::rlimit(60)]
proof fn flags_are_handed_down(t: Nodes, i: int, ctx: Ctx, st: FactsView, lang: Language, cfg: Dead, path: Chars)
    ensures
        ({
            let base = node_step(t, i, ctx, st, lang, cfg, path).1;
            &&& base.in_pattern == ctx.in_pattern
            &&& base.in_tt == ctx.in_tt
            &&& base.in_import == ctx.in_import
            &&& ctx.in_test ==> base.in_test
        }),
{
}

#[verifier::spinoff_prover]
#[verifier::rlimit(60)]
proof fn rust_flags(w: Reading, i: int)
    requires
        tree_ok(w.tree),
        w.lang == Language::Rust,
        0 <= i < w.tree.len(),
    ensures
        ctx_of(w, i).in_import == below(w.tree, i, "use_declaration"@),
        ctx_of(w, i).in_tt == below(w.tree, i, "token_tree"@),
        !maybe_pattern(w.tree, i) ==> !ctx_of(w, i).in_pattern,
        w.tree[i].parent matches Some(p) ==> (holds_patterns(w.tree[p as int].kind) ==> ctx_of(w, i).in_pattern),
        w.tree[i].parent == ctx_of(w, i).parent,
        ctx_of(w, i).assign_left == (match w.tree[i].parent {
            Some(p) => w.tree[i].field == "left"@ && (w.tree[p as int].kind == "assignment_expression"@ || w.tree[p as int].kind
                == "compound_assignment_expr"@),
            None => false,
        }),
    decreases i,
{
    rust_kinds();
    ctx_comes_from_parent(w, i);
    assert(node_ok(w.tree, i));
    match w.tree[i].parent {
        Some(p) => {
            rust_flags(w, p as int);
            flags_are_handed_down(w.tree, p as int, ctx_of(w, p as int), run(w, p as int).0, w.lang, w.cfg, w.path);
        },
        None => {},
    }
}

// ---------- Rust: fields ----------

/// A field that a struct pattern names is read: `let Point { east, .. } = p` reads `east`.
pub proof fn a_field_pattern_reads_its_field(w: Reading, i: int, n: usize)
    requires
        w.lang == Language::Rust,
        0 <= i < w.tree.len(),
        w.tree[i].kind == "field_pattern"@,
        child_of(w.tree, i, "name"@) == Some(n),
    ensures
        facts(w).reads.contains(w.tree[n as int].text),
{
    rust_kinds();
    has_children(w.tree, i, "name"@);
    step_is_kept(w, i);
    let was = run(w, i).0.reads;
    assert(step(w, i).0.reads == was.push(w.tree[n as int].text));
    assert(facts(w).reads[was.len() as int] == step(w, i).0.reads[was.len() as int]);
}

proof fn has_children(t: Nodes, i: int, field: Chars)
    requires
        child_of(t, i, field) is Some,
    ensures
        t[i].children.len() > 0,
{
}

/// A field access reads the field; on the left of an assignment it writes it instead, on that line.
pub proof fn a_field_access_reads_or_writes(w: Reading, i: int, f: usize)
    requires
        tree_ok(w.tree),
        w.lang == Language::Rust,
        0 <= i < w.tree.len(),
        w.tree[i].kind == "field_expression"@,
        child_of(w.tree, i, "field"@) == Some(f),
        w.tree[f as int].kind == "field_identifier"@,
    ensures
        ({
            let left = match w.tree[i].parent {
                Some(p) => w.tree[i].field == "left"@ && (w.tree[p as int].kind == "assignment_expression"@ || w.tree[p as int].kind
                    == "compound_assignment_expr"@),
                None => false,
            };
            &&& !left ==> facts(w).reads.contains(w.tree[f as int].text)
            &&& left ==> facts(w).writes.contains((w.tree[f as int].text, w.tree[i].line))
        }),
{
    rust_kinds();
    rust_flags(w, i);
    has_children(w.tree, i, "field"@);
    step_is_kept(w, i);
    let x = w.tree[f as int].text;
    let reads = run(w, i).0.reads;
    let writes = run(w, i).0.writes;
    if ctx_of(w, i).assign_left {
        assert(step(w, i).0.writes == writes.push((x, w.tree[i].line)));
        assert(facts(w).writes[writes.len() as int] == step(w, i).0.writes[writes.len() as int]);
    } else {
        assert(step(w, i).0.reads == reads.push(x));
        assert(facts(w).reads[reads.len() as int] == step(w, i).0.reads[reads.len() as int]);
    }
}

/// A struct expression writes the fields that it names, in full or in short, on their lines.
pub proof fn a_struct_expression_writes_its_fields(w: Reading, i: int, f: usize)
    requires
        w.lang == Language::Rust,
        0 <= i < w.tree.len(),
        ({
            ||| w.tree[i].kind == "field_initializer"@ && child_of(w.tree, i, "field"@) == Some(f)
            ||| w.tree[i].kind == "shorthand_field_initializer"@ && named_at(w.tree, i, 0) == Some(f)
        }),
    ensures
        facts(w).writes.contains((w.tree[f as int].text, w.tree[i].line)),
{
    rust_kinds();
    assert(w.tree[i].children.len() > 0);
    step_is_kept(w, i);
    let writes = run(w, i).0.writes;
    assert(step(w, i).0.writes == writes.push((w.tree[f as int].text, w.tree[i].line)));
    assert(facts(w).writes[writes.len() as int] == step(w, i).0.writes[writes.len() as int]);
}

/// A field that some struct pattern, some access that is no assignment, or some macro body names is
/// never reported as unread.
pub proof fn a_named_field_is_never_reported(
    files: Seq<FileIndex>,
    k: int,
    file: SourceFile,
    w: Reading,
    f: FileIndex,
    m: MemberDef,
    cfg: DeadShapes,
    i: int,
    n: usize,
)
    requires
        0 <= k < files.len(),
        side_of(files[k], file, Some(w.tree), w.regions, w.cfg),
        w.in_test == files[k].test_context,
        w.lang == file.lang,
        w.path == file.path@,
        tree_ok(w.tree),
        w.lang == Language::Rust,
        0 <= i < w.tree.len(),
        w.tree[n as int].text == m.name@,
        ({
            ||| w.tree[i].kind == "field_pattern"@ && child_of(w.tree, i, "name"@) == Some(n)
            ||| {
                &&& w.tree[i].kind == "field_expression"@
                &&& child_of(w.tree, i, "field"@) == Some(n)
                &&& w.tree[n as int].kind == "field_identifier"@
                &&& w.tree[i].field != "left"@
            }
        }),
    ensures
        field_shape(files, f, m, cfg) is None,
{
    if w.tree[i].kind == "field_pattern"@ {
        rust_kinds();
        a_field_pattern_reads_its_field(w, i, n);
    } else {
        a_field_access_reads_or_writes(w, i, n);
    }
    assert(files[k].shapes.field_reads.deep_view() == facts(w).reads);
    crate::dead::shapes::a_field_that_is_read_is_never_reported(files, f, m, cfg, k);
}

// ---------- Rust: variants ----------

/// A path outside imports constructs its last segment, or handles it where it is a pattern.
pub proof fn a_path_constructs_or_handles(w: Reading, i: int, n: usize)
    requires
        tree_ok(w.tree),
        w.lang == Language::Rust,
        0 <= i < w.tree.len(),
        w.tree[i].kind == "scoped_identifier"@,
        child_of(w.tree, i, "name"@) == Some(n),
        !below(w.tree, i, "use_declaration"@),
    ensures
        ({
            let x = w.tree[n as int].text;
            &&& !maybe_pattern(w.tree, i) ==> facts(w).ctors.contains(x)
            &&& w.tree[i].parent matches Some(p) ==> (holds_patterns(w.tree[p as int].kind) ==> facts(w).handled.contains(
                (x, w.tree[i].line),
            ))
            &&& facts(w).ctors.contains(x) || facts(w).handled.contains((x, w.tree[i].line))
        }),
{
    rust_kinds();
    rust_flags(w, i);
    has_children(w.tree, i, "name"@);
    step_is_kept(w, i);
    let x = w.tree[n as int].text;
    let ctors = run(w, i).0.ctors;
    let handled = run(w, i).0.handled;
    if ctx_of(w, i).in_pattern {
        assert(step(w, i).0.handled == handled.push((x, w.tree[i].line)));
        assert(facts(w).handled[handled.len() as int] == step(w, i).0.handled[handled.len() as int]);
    } else {
        assert(step(w, i).0.ctors == ctors.push(x));
        assert(facts(w).ctors[ctors.len() as int] == step(w, i).0.ctors[ctors.len() as int]);
    }
}

/// A struct expression of a path constructs its last segment: `Shape::Square { side }`.
pub proof fn a_struct_expression_constructs(w: Reading, i: int, n: usize, p: usize)
    requires
        tree_ok(w.tree),
        w.lang == Language::Rust,
        0 <= i < w.tree.len(),
        w.tree[i].kind == "scoped_type_identifier"@,
        child_of(w.tree, i, "name"@) == Some(n),
        w.tree[i].parent == Some(p),
        w.tree[p as int].kind == "struct_expression"@,
        !below(w.tree, i, "use_declaration"@),
        !maybe_pattern(w.tree, i),
    ensures
        facts(w).ctors.contains(w.tree[n as int].text),
{
    rust_kinds();
    rust_flags(w, i);
    has_children(w.tree, i, "name"@);
    step_is_kept(w, i);
    let ctors = run(w, i).0.ctors;
    assert(step(w, i).0.ctors == ctors.push(w.tree[n as int].text));
    assert(facts(w).ctors[ctors.len() as int] == step(w, i).0.ctors[ctors.len() as int]);
}

/// A variant that some path outside imports and patterns names is never reported.
pub proof fn a_constructed_variant_is_never_reported(
    files: Seq<FileIndex>,
    k: int,
    file: SourceFile,
    w: Reading,
    f: FileIndex,
    m: MemberDef,
    cfg: DeadShapes,
    i: int,
    n: usize,
)
    requires
        0 <= k < files.len(),
        side_of(files[k], file, Some(w.tree), w.regions, w.cfg),
        w.in_test == files[k].test_context,
        w.lang == file.lang,
        w.path == file.path@,
        tree_ok(w.tree),
        w.lang == Language::Rust,
        0 <= i < w.tree.len(),
        w.tree[n as int].text == m.name@,
        w.tree[i].kind == "scoped_identifier"@,
        child_of(w.tree, i, "name"@) == Some(n),
        !below(w.tree, i, "use_declaration"@),
        !maybe_pattern(w.tree, i),
    ensures
        variant_shape(files, f, m, cfg) is None,
{
    a_path_constructs_or_handles(w, i, n);
    assert(files[k].shapes.variant_ctors.deep_view() == facts(w).ctors);
    crate::dead::shapes::a_variant_that_is_built_is_never_reported(files, f, m, cfg, k);
}

// ---------- Rust: items ----------

/// A file has a definition of a name on these lines, of this kind and visibility.
pub open spec fn defines(st: FactsView, name: Chars, kind: Chars, vis: Visibility, line: usize, end_line: usize) -> bool {
    exists|k: int|
        0 <= k < st.defs.len() && (#[trigger] st.defs[k]).name == name && st.defs[k].kind == kind && st.defs[k].visibility == vis
            && st.defs[k].start_line == line && st.defs[k].end_line == end_line
}

/// The visibility that the first visibility modifier among a node's children gives it.
pub open spec fn stated_visibility(t: Nodes, i: int, vis: Visibility) -> bool {
    let kids = t[i].children;
    ||| {
        &&& forall|k: int| 0 <= k < kids.len() ==> t[#[trigger] kids[k] as int].kind != "visibility_modifier"@
        &&& vis == Visibility::Private
    }
    ||| exists|k: int| {
        &&& 0 <= k < kids.len()
        &&& t[#[trigger] kids[k] as int].kind == "visibility_modifier"@
        &&& forall|j: int| 0 <= j < k ==> t[#[trigger] kids[j] as int].kind != "visibility_modifier"@
        &&& vis == (if t[kids[k] as int].text == "pub"@ {
            Visibility::Public
        } else {
            Visibility::Restricted
        })
    }
}

proof fn modifier_is_first(t: Nodes, kids: Seq<usize>, k: int, i: int)
    requires
        0 <= k <= i <= kids.len(),
        forall|j: int| k <= j < i ==> t[#[trigger] kids[j] as int].kind != "visibility_modifier"@,
        i < kids.len() ==> t[kids[i] as int].kind == "visibility_modifier"@,
    ensures
        crate::dead::walk::modifier_from(t, kids, k) == (if i < kids.len() {
            Some(kids[i])
        } else {
            None
        }),
    decreases i - k,
{
    if k < i {
        assert(t[kids[k] as int].kind != "visibility_modifier"@);
        modifier_is_first(t, kids, k + 1, i);
    }
}

proof fn stated_is_visible(t: Nodes, i: int, vis: Visibility)
    requires
        stated_visibility(t, i, vis),
    ensures
        crate::dead::walk::visible(t, i).0 == vis,
{
    let kids = t[i].children;
    if forall|k: int| 0 <= k < kids.len() ==> t[#[trigger] kids[k] as int].kind != "visibility_modifier"@ {
        modifier_is_first(t, kids, 0, kids.len() as int);
    } else {
        let k = choose|k: int| {
            &&& 0 <= k < kids.len()
            &&& t[#[trigger] kids[k] as int].kind == "visibility_modifier"@
            &&& forall|j: int| 0 <= j < k ==> t[#[trigger] kids[j] as int].kind != "visibility_modifier"@
            &&& vis == (if t[kids[k] as int].text == "pub"@ {
                Visibility::Public
            } else {
                Visibility::Restricted
            })
        };
        modifier_is_first(t, kids, 0, k);
    }
}

/// Every named Rust item is a definition, with the visibility that it states.
#[verifier::spinoff_prover]
#[verifier::rlimit(60)]
pub proof fn a_rust_item_is_a_definition(w: Reading, i: int, n: usize, vis: Visibility)
    requires
        w.lang == Language::Rust,
        0 <= i < w.tree.len(),
        child_of(w.tree, i, "name"@) == Some(n),
        stated_visibility(w.tree, i, vis),
    ensures
        ({
            let x = w.tree[i];
            let is = |kind: Chars| defines(facts(w), w.tree[n as int].text, kind, vis, x.line, x.end_line);
            &&& x.kind == "struct_item"@ ==> is("struct"@)
            &&& x.kind == "enum_item"@ ==> is("enum"@)
            &&& x.kind == "union_item"@ ==> is("union"@)
            &&& x.kind == "trait_item"@ ==> is("trait"@)
            &&& x.kind == "type_item"@ ==> is("type"@)
            &&& x.kind == "const_item"@ ==> is("const"@)
            &&& x.kind == "static_item"@ ==> is("static"@)
            &&& x.kind == "mod_item"@ ==> is("mod"@)
            &&& x.kind == "function_item"@ ==> is("fn"@) || is("method"@)
            &&& x.kind == "function_signature_item"@ ==> is("fn"@) || is("method"@)
        }),
{
    rust_kinds();
    has_children(w.tree, i, "name"@);
    stated_is_visible(w.tree, i, vis);
    step_is_kept(w, i);
    let was = run(w, i).0.defs;
    let k = was.len() as int;
    let x = w.tree[i];
    if crate::dead::walk::item_kind(x.kind) || x.kind == "function_item"@ || x.kind == "function_signature_item"@ {
        assert(step(w, i).0.defs.len() == was.len() + 1);
        assert(facts(w).defs[k] == step(w, i).0.defs[k]);
        assert(facts(w).defs[k].name == w.tree[n as int].text);
    }
}

// ---------- references ----------

/// An identifier is the name of what its file declares: a Rust item, field or variant; a TypeScript
/// function, type, variable or method; a Python function, class or assigned name.
pub open spec fn declared_at(t: Nodes, lang: Language, start: usize) -> bool {
    exists|j: int, n: usize| #[trigger]
        declares(t, lang, j, n) && t[n as int].start == start
}

/// Node `j` declares what node `n` names.
pub open spec fn declares(t: Nodes, lang: Language, j: int, n: usize) -> bool {
    let k = t[j].kind;
    match lang {
        Language::Rust => child_of(t, j, "name"@) == Some(n) && {
            ||| k == "function_item"@ || k == "function_signature_item"@
            ||| k == "struct_item"@ || k == "enum_item"@ || k == "union_item"@ || k == "trait_item"@
            ||| k == "type_item"@ || k == "const_item"@ || k == "static_item"@ || k == "mod_item"@
            ||| k == "field_declaration"@ || k == "enum_variant"@
        },
        Language::Python => {
            ||| child_of(t, j, "name"@) == Some(n) && (k == "function_definition"@ || k == "class_definition"@)
            ||| child_of(t, j, "left"@) == Some(n) && k == "assignment"@
        },
        _ => child_of(t, j, "name"@) == Some(n) && {
            ||| k == "function_declaration"@ || k == "generator_function_declaration"@
            ||| k == "class_declaration"@ || k == "abstract_class_declaration"@ || k == "interface_declaration"@
            ||| k == "type_alias_declaration"@ || k == "enum_declaration"@
            ||| k == "variable_declarator"@ || k == "method_definition"@
        },
    }
}

/// Everything that one set has more than another is the name of a declaration.
spec fn skips_names(t: Nodes, lang: Language, a: Set<usize>, b: Set<usize>) -> bool {
    forall|x: usize| #[trigger] b.contains(x) ==> a.contains(x) || declared_at(t, lang, x)
}

proof fn declarator_skips_names(t: Nodes, lang: Language, d: usize, ctx: Ctx, st: FactsView, cfg: Dead, path: Chars)
    requires
        lang != Language::Rust && lang != Language::Python,
    ensures
        skips_names(t, lang, st.skip, ts_declarator(t, d, ctx, st, cfg, path).skip),
{
    let next = ts_declarator(t, d, ctx, st, cfg, path);
    assert forall|b: usize| #[trigger] next.skip.contains(b) implies st.skip.contains(b) || declared_at(t, lang, b) by {
        if !st.skip.contains(b) {
            let n = child_of(t, d as int, "name"@)->0;
            assert(t[n as int].start == b);
            assert(declares(t, lang, d as int, n));
        }
    }
}

proof fn declarators_skip_names(t: Nodes, lang: Language, kids: Seq<usize>, k: int, ctx: Ctx, st: FactsView, cfg: Dead, path: Chars)
    requires
        lang != Language::Rust && lang != Language::Python,
    ensures
        skips_names(t, lang, st.skip, ts_declarators(t, kids, k, ctx, st, cfg, path).skip),
    decreases kids.len() - k,
{
    if 0 <= k < kids.len() {
        let next = ts_declarator(t, kids[k], ctx, st, cfg, path);
        declarator_skips_names(t, lang, kids[k], ctx, st, cfg, path);
        declarators_skip_names(t, lang, kids, k + 1, ctx, next, cfg, path);
    }
}

#[verifier::spinoff_prover]
#[verifier::rlimit(80)]
proof fn rust_skips_names(t: Nodes, i: int, ctx: Ctx, st: FactsView, cfg: Dead, path: Chars)
    ensures
        skips_names(t, Language::Rust, st.skip, rust_step(t, i, ctx, st, cfg, path).0.skip),
{
    let next = rust_step(t, i, ctx, st, cfg, path).0;
    assert forall|b: usize| #[trigger] next.skip.contains(b) && !st.skip.contains(b) implies declared_at(t, Language::Rust, b) by {
        let n = child_of(t, i, "name"@)->0;
        assert(t[n as int].start == b);
        assert(declares(t, Language::Rust, i, n));
    }
}

#[verifier::spinoff_prover]
#[verifier::rlimit(80)]
proof fn ts_skips_names(t: Nodes, i: int, ctx: Ctx, st: FactsView, lang: Language, cfg: Dead, path: Chars)
    requires
        lang != Language::Rust && lang != Language::Python,
    ensures
        skips_names(t, lang, st.skip, ts_step(t, i, ctx, st, lang, cfg, path).0.skip),
{
    let next = ts_step(t, i, ctx, st, lang, cfg, path).0;
    declarators_skip_names(t, lang, named_kids(t, i), 0, ctx, st, cfg, path);
    let many = ts_declarators(t, named_kids(t, i), 0, ctx, st, cfg, path);
    assert forall|b: usize| #[trigger] next.skip.contains(b) && !st.skip.contains(b) implies declared_at(t, lang, b) by {
        if next.skip == many.skip {
            assert(many.skip.contains(b));
        } else {
            let n = child_of(t, i, "name"@)->0;
            assert(t[n as int].start == b);
            assert(declares(t, lang, i, n));
        }
    }
}

#[verifier::spinoff_prover]
#[verifier::rlimit(80)]
proof fn python_skips_names(t: Nodes, i: int, ctx: Ctx, st: FactsView, cfg: Dead, path: Chars)
    ensures
        skips_names(t, Language::Python, st.skip, python_step(t, i, ctx, st, cfg, path).0.skip),
{
    let next = python_step(t, i, ctx, st, cfg, path).0;
    assert forall|b: usize| #[trigger] next.skip.contains(b) && !st.skip.contains(b) implies declared_at(t, Language::Python, b) by {
        if t[i].kind == "function_definition"@ || t[i].kind == "class_definition"@ {
            let n = child_of(t, i, "name"@)->0;
            assert(t[n as int].start == b);
            assert(declares(t, Language::Python, i, n));
        } else {
            let n = child_of(t, i, "left"@)->0;
            assert(t[n as int].start == b);
            assert(declares(t, Language::Python, i, n));
        }
    }
}

proof fn run_skips_names(w: Reading, n: int, b: usize)
    requires
        0 <= n <= w.tree.len(),
        run(w, n).0.skip.contains(b),
    ensures
        declared_at(w.tree, w.lang, b),
    decreases n,
{
    if n > 0 {
        let (ctx, st) = (ctx_of(w, n - 1), run(w, n - 1).0);
        match w.lang {
            Language::Rust => {
                rust_skips_names(w.tree, n - 1, ctx, st, w.cfg, w.path);
            },
            Language::Python => {
                python_skips_names(w.tree, n - 1, ctx, st, w.cfg, w.path);
            },
            _ => {
                ts_skips_names(w.tree, n - 1, ctx, st, w.lang, w.cfg, w.path);
            },
        }
        if run(w, n - 1).0.skip.contains(b) {
            run_skips_names(w, n - 1, b);
        }
    }
}

/// Every identifier that is not the name of a declaration is a mention of its name; in TypeScript
/// those of imports aside.
#[verifier::spinoff_prover]
#[verifier::rlimit(60)]
pub proof fn an_identifier_is_a_mention(w: Reading, i: int)
    requires
        tree_ok(w.tree),
        0 <= i < w.tree.len(),
        w.tree[i].children.len() == 0,
        !declared_at(w.tree, w.lang, w.tree[i].start),
        ({
            let k = w.tree[i].kind;
            match w.lang {
                Language::Rust => k == "identifier"@ || k == "type_identifier"@ || k == "field_identifier"@ || k
                    == "shorthand_field_identifier"@,
                Language::Python => k == "identifier"@,
                _ => {
                    &&& k == "identifier"@ || k == "type_identifier"@ || k == "property_identifier"@ || k
                        == "shorthand_property_identifier"@ || k == "shorthand_property_identifier_pattern"@
                    &&& !below(w.tree, i, "import_statement"@)
                },
            }
        }),
    ensures
        facts(w).mentions.contains((w.tree[i].text, true)) || facts(w).mentions.contains((w.tree[i].text, false)),
        w.in_test ==> facts(w).mentions.contains((w.tree[i].text, true)),
        w.lang == Language::Rust && within(w.regions, w.tree[i].start) ==> facts(w).mentions.contains((w.tree[i].text, true)),
        w.lang == Language::Rust && below(w.tree, i, "token_tree"@) ==> facts(w).reads.contains(w.tree[i].text) && facts(
            w,
        ).ctors.contains(w.tree[i].text),
{
    if run(w, i).0.skip.contains(w.tree[i].start) {
        run_skips_names(w, i, w.tree[i].start);
    }
    if w.lang == Language::Rust {
        rust_flags(w, i);
    } else if w.lang != Language::Python {
        ts_flags(w, i);
    }
    if w.in_test {
        tests_stay_tests(w, i);
    }
    step_is_kept(w, i);
    let x = w.tree[i].text;
    let was = run(w, i).0.mentions;
    let k = was.len() as int;
    assert(step(w, i).0.mentions == was.push((x, ctx_of(w, i).in_test)));
    assert(facts(w).mentions[k] == step(w, i).0.mentions[k]);
    if w.lang == Language::Rust && below(w.tree, i, "token_tree"@) {
        let reads = run(w, i).0.reads;
        let ctors = run(w, i).0.ctors;
        assert(step(w, i).0.reads == reads.push(x));
        assert(facts(w).reads[reads.len() as int] == step(w, i).0.reads[reads.len() as int]);
        assert(step(w, i).0.ctors == ctors.push(x));
        assert(facts(w).ctors[ctors.len() as int] == step(w, i).0.ctors[ctors.len() as int]);
    }
}

proof fn tests_stay_tests(w: Reading, i: int)
    requires
        tree_ok(w.tree),
        w.in_test,
        0 <= i < w.tree.len(),
    ensures
        ctx_of(w, i).in_test,
    decreases i,
{
    ctx_comes_from_parent(w, i);
    if let Some(p) = w.tree[i].parent {
        tests_stay_tests(w, p as int);
        flags_are_handed_down(w.tree, p as int, ctx_of(w, p as int), run(w, p as int).0, w.lang, w.cfg, w.path);
    }
}

#[verifier::spinoff_prover]
#[verifier::rlimit(60)]
proof fn ts_flags(w: Reading, i: int)
    requires
        tree_ok(w.tree),
        w.lang != Language::Rust && w.lang != Language::Python,
        0 <= i < w.tree.len(),
    ensures
        ctx_of(w, i).in_import == below(w.tree, i, "import_statement"@),
        ctx_of(w, i).exported == (match w.tree[i].parent {
            Some(p) => w.tree[p as int].kind == "export_statement"@ && w.tree[i].field == "declaration"@,
            None => false,
        }),
    decreases i,
{
    ts_kinds();
    ctx_comes_from_parent(w, i);
    assert(node_ok(w.tree, i));
    match w.tree[i].parent {
        Some(p) => {
            ts_flags(w, p as int);
            flags_are_handed_down(w.tree, p as int, ctx_of(w, p as int), run(w, p as int).0, w.lang, w.cfg, w.path);
        },
        None => {},
    }
}

proof fn a_mention_counts(mentions: Seq<(Chars, bool)>, name: Chars, in_test: bool)
    requires
        mentions.contains((name, in_test)),
    ensures
        in_test ==> counted(mentions, name).test > 0,
        !in_test ==> counted(mentions, name).prod > 0,
    decreases mentions.len(),
{
    let k = choose|k: int| 0 <= k < mentions.len() && mentions[k] == (name, in_test);
    if k < mentions.len() - 1 {
        let rest = mentions.drop_last();
        assert(rest[k] == (name, in_test));
        a_mention_counts(rest, name, in_test);
    }
}

/// A name that some identifier of a file mentions is counted there, in tests or outside of them.
pub proof fn a_mentioned_name_is_counted(fi: FileIndex, file: SourceFile, w: Reading, i: int)
    requires
        side_of(fi, file, Some(w.tree), w.regions, w.cfg),
        w.in_test == fi.test_context,
        w.lang == file.lang,
        w.path == file.path@,
        tree_ok(w.tree),
        0 <= i < w.tree.len(),
        w.tree[i].children.len() == 0,
        !declared_at(w.tree, w.lang, w.tree[i].start),
        w.tree[i].kind == "identifier"@,
        w.lang == Language::Rust || w.lang == Language::Python || !below(w.tree, i, "import_statement"@),
    ensures
        fi.refs.of(w.tree[i].text).prod > 0 || fi.refs.of(w.tree[i].text).test > 0,
        w.in_test ==> fi.refs.of(w.tree[i].text).test > 0,
{
    an_identifier_is_a_mention(w, i);
    let x = w.tree[i].text;
    if facts(w).mentions.contains((x, true)) {
        a_mention_counts(facts(w).mentions, x, true);
    } else {
        a_mention_counts(facts(w).mentions, x, false);
    }
}

// ---------- TypeScript ----------

/// Every named TypeScript declaration is a definition; the declaration of an export is public, any
/// other one private.
#[verifier::spinoff_prover]
#[verifier::rlimit(60)]
pub proof fn a_ts_declaration_is_a_definition(w: Reading, i: int, n: usize)
    requires
        tree_ok(w.tree),
        w.lang == Language::TypeScript || w.lang == Language::Tsx || w.lang == Language::JavaScript,
        0 <= i < w.tree.len(),
        child_of(w.tree, i, "name"@) == Some(n),
    ensures
        ({
            let x = w.tree[i];
            let vis = match x.parent {
                Some(p) => if w.tree[p as int].kind == "export_statement"@ && x.field == "declaration"@ {
                    Visibility::Public
                } else {
                    Visibility::Private
                },
                None => Visibility::Private,
            };
            let is = |kind: Chars| defines(facts(w), w.tree[n as int].text, kind, vis, x.line, x.end_line);
            &&& x.kind == "function_declaration"@ ==> is("fn"@)
            &&& x.kind == "generator_function_declaration"@ ==> is("fn"@)
            &&& x.kind == "class_declaration"@ ==> is("class"@)
            &&& x.kind == "abstract_class_declaration"@ ==> is("class"@)
            &&& x.kind == "interface_declaration"@ ==> is("interface"@)
            &&& x.kind == "type_alias_declaration"@ ==> is("type"@)
            &&& x.kind == "enum_declaration"@ ==> is("enum"@)
        }),
{
    ts_kinds();
    ts_flags(w, i);
    has_children(w.tree, i, "name"@);
    step_is_kept(w, i);
    let was = run(w, i).0.defs;
    let k = was.len() as int;
    let x = w.tree[i];
    if crate::dead::walk::ts_type_kind(x.kind) || x.kind == "function_declaration"@ || x.kind == "generator_function_declaration"@ {
        assert(step(w, i).0.defs.len() == was.len() + 1);
        assert(facts(w).defs[k] == step(w, i).0.defs[k]);
        assert(facts(w).defs[k].name == w.tree[n as int].text);
    }
}

// ---------- Python ----------

/// Every named Python function and class is a definition: public at the top of its module, decorated
/// or not, and without a leading `_`.
#[verifier::spinoff_prover]
#[verifier::rlimit(60)]
pub proof fn a_python_definition_is_one(w: Reading, i: int, n: usize, p: usize)
    requires
        w.lang == Language::Python,
        0 <= i < w.tree.len(),
        child_of(w.tree, i, "name"@) == Some(n),
        w.tree[i].parent == Some(p),
        w.tree[p as int].kind == "module"@,
    ensures
        ({
            let x = w.tree[i];
            let name = w.tree[n as int].text;
            let vis = if name.len() > 0 && name[0] == '_' {
                Visibility::Private
            } else {
                Visibility::Public
            };
            let is = |kind: Chars| defines(facts(w), name, kind, vis, x.line, x.end_line);
            &&& x.kind == "function_definition"@ ==> is("fn"@) || is("method"@)
            &&& x.kind == "class_definition"@ ==> is("class"@)
        }),
{
    reveal_strlit("function_definition");
    reveal_strlit("class_definition");
    reveal_strlit("decorated_definition");
    reveal_strlit("module");
    reveal_strlit("_");
    assert("function_definition"@[0] == 'f' && "class_definition"@[0] == 'c');
    assert("module"@.len() == 6 && "decorated_definition"@.len() == 20);
    has_children(w.tree, i, "name"@);
    step_is_kept(w, i);
    let was = run(w, i).0.defs;
    let k = was.len() as int;
    let x = w.tree[i];
    let name = w.tree[n as int].text;
    if name.len() > 0 && name[0] == '_' {
        assert(name.subrange(0, 1) =~= "_"@);
    } else if crate::text::starts(name, "_"@) {
        assert(name.subrange(0, 1)[0] == '_');
    }
    if x.kind == "function_definition"@ || x.kind == "class_definition"@ {
        assert(step(w, i).0.defs.len() == was.len() + 1);
        assert(facts(w).defs[k] == step(w, i).0.defs[k]);
        assert(facts(w).defs[k].name == name);
    }
}

proof fn more_kinds()
    ensures
        "field_declaration"@.len() == 17,
        "field_declaration"@[0] == 'f',
        "field_declaration"@[6] == 'd',
        "enum_variant"@.len() == 12,
        "enum_variant"@[0] == 'e',
        "field_declaration_list"@.len() == 22,
        "field_declaration_list"@[0] == 'f',
        "enum_variant_list"@.len() == 17,
        "enum_variant_list"@[0] == 'e',
        "struct_item"@.len() == 11,
        "struct_item"@[2] == 'r',
        "enum_item"@.len() == 9,
        "enum_item"@[0] == 'e',
        "use_wildcard"@.len() == 12,
        "use_wildcard"@[0] == 'u',
        "impl_item"@.len() == 9,
        "impl_item"@[0] == 'i',
        "declaration_list"@.len() == 16,
        "declaration_list"@[0] == 'd',
        "function_item"@.len() == 13,
        "function_item"@[0] == 'f',
        "function_item"@[1] == 'u',
        "function_signature_item"@.len() == 23,
        "function_signature_item"@[0] == 'f',
        "union_item"@.len() == 10,
        "union_item"@[0] == 'u',
        "trait_item"@.len() == 10,
        "trait_item"@[0] == 't',
        "trait_item"@[1] == 'r',
        "type_item"@.len() == 9,
        "type_item"@[0] == 't',
        "const_item"@.len() == 10,
        "const_item"@[0] == 'c',
        "static_item"@.len() == 11,
        "static_item"@[2] == 'a',
        "mod_item"@.len() == 8,
        "doc_comment"@.len() == 11,
        "doc_comment"@[2] == 'c',
        "string_content"@.len() == 14,
        "string_content"@[0] == 's',
        "string_content"@[3] == 'i',
        "identifier"@.len() == 10,
        "identifier"@[0] == 'i',
        "type_identifier"@.len() == 15,
        "type_identifier"@[0] == 't',
        "field_identifier"@.len() == 16,
        "field_identifier"@[0] == 'f',
        "field_identifier"@[6] == 'i',
        "shorthand_field_identifier"@.len() == 26,
        "scoped_identifier"@.len() == 17,
        "scoped_identifier"@[0] == 's',
        "attribute_item"@.len() == 14,
        "attribute_item"@[0] == 'a',
        "attribute"@.len() == 9,
        "attribute"@[0] == 'a',
        "token_tree"@.len() == 10,
        "token_tree"@[0] == 't',
        "token_tree"@[1] == 'o',
        "field_expression"@.len() == 16,
        "field_expression"@[0] == 'f',
        "field_expression"@[6] == 'e',
        "field_pattern"@.len() == 13,
        "field_pattern"@[0] == 'f',
        "field_pattern"@[1] == 'i',
        "field_initializer"@.len() == 17,
        "field_initializer"@[0] == 'f',
        "field_initializer"@[6] == 'i',
        "shorthand_field_initializer"@.len() == 27,
        "scoped_type_identifier"@.len() == 22,
        "scoped_type_identifier"@[0] == 's',
        "match_pattern"@.len() == 13,
        "match_pattern"@[0] == 'm',
        "match_pattern"@[1] == 'a',
        "let_declaration"@.len() == 15,
        "let_declaration"@[0] == 'l',
        "let_condition"@.len() == 13,
        "let_condition"@[0] == 'l',
        "let_condition"@[1] == 'e',
        "for_expression"@.len() == 14,
        "for_expression"@[0] == 'f',
        "parameter"@.len() == 9,
        "parameter"@[0] == 'p',
        "closure_parameters"@.len() == 18,
        "assignment_expression"@.len() == 21,
        "compound_assignment_expr"@.len() == 24,
        "use_declaration"@.len() == 15,
        "use_declaration"@[0] == 'u',
        "line_comment"@.len() == 12,
        "line_comment"@[0] == 'l',
        "block_comment"@.len() == 13,
        "block_comment"@[0] == 'b',
        "block_comment"@[1] == 'l',
        "primitive_type"@.len() == 14,
        "primitive_type"@[0] == 'p',
        "generic_type"@.len() == 12,
        "generic_type"@[0] == 'g',
        "tuple_struct_pattern"@.len() == 20,
        "struct_pattern"@.len() == 14,
        "struct_pattern"@[0] == 's',
        "struct_pattern"@[3] == 'u',
        "or_pattern"@.len() == 10,
        "or_pattern"@[0] == 'o',
        "slice_pattern"@.len() == 13,
        "slice_pattern"@[0] == 's',
        "slice_pattern"@[1] == 'l',
        "tuple_pattern"@.len() == 13,
        "tuple_pattern"@[0] == 't',
        "reference_pattern"@.len() == 17,
        "reference_pattern"@[0] == 'r',
        "ref_pattern"@.len() == 11,
        "ref_pattern"@[2] == 'f',
        "mut_pattern"@.len() == 11,
        "mut_pattern"@[2] == 't',
        "captured_pattern"@.len() == 16,
        "captured_pattern"@[0] == 'c',
        "range_pattern"@.len() == 13,
        "range_pattern"@[0] == 'r',
        "generic_pattern"@.len() == 15,
        "generic_pattern"@[0] == 'g',
        "remaining_field_pattern"@.len() == 23,
        "remaining_field_pattern"@[0] == 'r',
{
    reveal_strlit("field_declaration");
    reveal_strlit("enum_variant");
    reveal_strlit("field_declaration_list");
    reveal_strlit("enum_variant_list");
    reveal_strlit("struct_item");
    reveal_strlit("enum_item");
    reveal_strlit("use_wildcard");
    reveal_strlit("impl_item");
    reveal_strlit("declaration_list");
    reveal_strlit("function_item");
    reveal_strlit("function_signature_item");
    reveal_strlit("union_item");
    reveal_strlit("trait_item");
    reveal_strlit("type_item");
    reveal_strlit("const_item");
    reveal_strlit("static_item");
    reveal_strlit("mod_item");
    reveal_strlit("doc_comment");
    reveal_strlit("string_content");
    reveal_strlit("identifier");
    reveal_strlit("type_identifier");
    reveal_strlit("field_identifier");
    reveal_strlit("shorthand_field_identifier");
    reveal_strlit("scoped_identifier");
    reveal_strlit("attribute_item");
    reveal_strlit("attribute");
    reveal_strlit("token_tree");
    reveal_strlit("field_expression");
    reveal_strlit("field_pattern");
    reveal_strlit("field_initializer");
    reveal_strlit("shorthand_field_initializer");
    reveal_strlit("scoped_type_identifier");
    reveal_strlit("match_pattern");
    reveal_strlit("let_declaration");
    reveal_strlit("let_condition");
    reveal_strlit("for_expression");
    reveal_strlit("parameter");
    reveal_strlit("closure_parameters");
    reveal_strlit("assignment_expression");
    reveal_strlit("compound_assignment_expr");
    reveal_strlit("use_declaration");
    reveal_strlit("line_comment");
    reveal_strlit("block_comment");
    reveal_strlit("primitive_type");
    reveal_strlit("generic_type");
    reveal_strlit("tuple_struct_pattern");
    reveal_strlit("struct_pattern");
    reveal_strlit("or_pattern");
    reveal_strlit("slice_pattern");
    reveal_strlit("tuple_pattern");
    reveal_strlit("reference_pattern");
    reveal_strlit("ref_pattern");
    reveal_strlit("mut_pattern");
    reveal_strlit("captured_pattern");
    reveal_strlit("range_pattern");
    reveal_strlit("generic_pattern");
    reveal_strlit("remaining_field_pattern");
}

// ---------- Rust: members, impls and comments ----------

/// A field declared in a struct is a field of it, on its line.
#[verifier::spinoff_prover]
#[verifier::rlimit(60)]
pub proof fn a_declared_field_is_a_member(w: Reading, i: int, n: usize, b: usize, j: int, f: usize)
    requires
        tree_ok(w.tree),
        w.lang == Language::Rust,
        0 <= i < b < j < w.tree.len() <= usize::MAX,
        w.tree[i].kind == "struct_item"@,
        child_of(w.tree, i, "name"@) == Some(n),
        w.tree[b as int].kind == "field_declaration_list"@,
        w.tree[b as int].parent == Some(i as usize),
        w.tree[b as int].children.len() > 0,
        w.tree[j].kind == "field_declaration"@,
        w.tree[j].parent == Some(b),
        child_of(w.tree, j, "name"@) == Some(f),
        run_fits(w),
    ensures
        has_member(facts(w).fields, facts(w), w.tree[n as int].text, false, w.tree[f as int].text, w.tree[j].line),
{
    more_kinds();
    has_children(w.tree, i, "name"@);
    has_children(w.tree, j, "name"@);
    types_pass_down(w, i, b as int, j);
    step_is_kept(w, i);
    step_is_kept(w, j);
    let ti = run(w, i).0.types.len() as int;
    let was = run(w, j).0.fields;
    run_grows(w, i + 1, j);
    reveal(grows);
    assert(run(w, i + 1).0 == step(w, i).0);
    assert(run(w, j).0.types[ti] == step(w, i).0.types[ti]);
    assert(step(w, j).0.fields == was.push(crate::dead::walk::member(w.tree, j, f, ti as usize)));
    assert(facts(w).fields[was.len() as int] == step(w, j).0.fields[was.len() as int]);
    assert(facts(w).types[ti] == step(w, i).0.types[ti]);
}

/// A variant declared in an enum is a variant of it, on its line.
#[verifier::spinoff_prover]
#[verifier::rlimit(60)]
pub proof fn a_declared_variant_is_a_member(w: Reading, i: int, n: usize, b: usize, j: int, f: usize)
    requires
        tree_ok(w.tree),
        w.lang == Language::Rust,
        0 <= i < b < j < w.tree.len() <= usize::MAX,
        w.tree[i].kind == "enum_item"@,
        child_of(w.tree, i, "name"@) == Some(n),
        w.tree[b as int].kind == "enum_variant_list"@,
        w.tree[b as int].parent == Some(i as usize),
        w.tree[b as int].children.len() > 0,
        w.tree[j].kind == "enum_variant"@,
        w.tree[j].parent == Some(b),
        child_of(w.tree, j, "name"@) == Some(f),
        run_fits(w),
    ensures
        has_member(facts(w).variants, facts(w), w.tree[n as int].text, true, w.tree[f as int].text, w.tree[j].line),
{
    more_kinds();
    has_children(w.tree, i, "name"@);
    has_children(w.tree, j, "name"@);
    types_pass_down(w, i, b as int, j);
    step_is_kept(w, i);
    step_is_kept(w, j);
    let ti = run(w, i).0.types.len() as int;
    let was = run(w, j).0.variants;
    run_grows(w, i + 1, j);
    reveal(grows);
    assert(run(w, i + 1).0 == step(w, i).0);
    assert(step(w, j).0.variants == was.push(crate::dead::walk::member(w.tree, j, f, ti as usize)));
    assert(facts(w).variants[was.len() as int] == step(w, j).0.variants[was.len() as int]);
    assert(facts(w).types[ti] == step(w, i).0.types[ti]);
}

/// The types of a file can be counted.
pub open spec fn run_fits(w: Reading) -> bool {
    facts(w).types.len() <= usize::MAX
}

/// A member of a type is listed with it.
pub open spec fn has_member(
    list: Seq<crate::dead::walk::MemberView>,
    st: FactsView,
    of: Chars,
    is_enum: bool,
    name: Chars,
    line: usize,
) -> bool {
    exists|k: int| {
        &&& 0 <= k < list.len()
        &&& (#[trigger] list[k]).name == name
        &&& list[k].line == line
        &&& list[k].type_idx < st.types.len()
        &&& st.types[list[k].type_idx as int].name == of
        &&& st.types[list[k].type_idx as int].is_enum == is_enum
    }
}

proof fn types_pass_down(w: Reading, i: int, b: int, j: int)
    requires
        tree_ok(w.tree),
        w.lang == Language::Rust,
        0 <= i < b < j < w.tree.len() <= usize::MAX,
        w.tree[i].kind == "struct_item"@ || w.tree[i].kind == "enum_item"@,
        child_of(w.tree, i, "name"@) is Some,
        w.tree[b].kind == "field_declaration_list"@ || w.tree[b].kind == "enum_variant_list"@,
        w.tree[b].children.len() > 0,
        w.tree[b].parent == Some(i as usize),
        w.tree[j].parent == Some(b as usize),
    ensures
        ctx_of(w, j).type_idx == Some(run(w, i).0.types.len() as usize),
{
    more_kinds();
    has_children(w.tree, i, "name"@);
    ctx_comes_from_parent(w, b);
    ctx_comes_from_parent(w, j);
    assert(step(w, i).1.type_idx == Some(run(w, i).0.types.len() as usize));
    assert(ctx_of(w, b).type_idx == step(w, i).1.type_idx);
    assert(step(w, b).1 == ctx_of(w, b));
}

/// `use Kind::*` brings in all of the last name of its path.
pub proof fn a_wildcard_import_is_noted(w: Reading, i: int, p: usize)
    requires
        w.lang == Language::Rust,
        0 <= i < w.tree.len(),
        w.tree[i].kind == "use_wildcard"@,
        named_at(w.tree, i, 0) == Some(p),
        p < w.tree.len(),
        w.tree[i].children.len() > 0,
    ensures
        w.tree[p as int].kind == "identifier"@ ==> facts(w).wildcards.contains(w.tree[p as int].text),
        forall|c: usize|
            w.tree[p as int].kind == "scoped_identifier"@ && #[trigger] child_of(w.tree, p as int, "name"@) == Some(c) && p < c < w.tree.len()
                && w.tree[c as int].kind == "identifier"@ ==> facts(w).wildcards.contains(w.tree[c as int].text),
{
    more_kinds();
    reveal_strlit("reference_type");
    reveal_strlit("pointer_type");
    reveal_strlit("dynamic_type");
    reveal_strlit("abstract_type");
    assert("reference_type"@.len() == 14 && "pointer_type"@.len() == 12 && "dynamic_type"@.len() == 12 && "abstract_type"@.len() == 13);
    step_is_kept(w, i);
    let was = run(w, i).0.wildcards;
    if w.tree[p as int].kind == "identifier"@ {
        assert(crate::dead::walk::naming(w.tree, p as int) == Some(p));
        assert(facts(w).wildcards[was.len() as int] == step(w, i).0.wildcards[was.len() as int]);
    }
    assert forall|c: usize|
        w.tree[p as int].kind == "scoped_identifier"@ && #[trigger] child_of(w.tree, p as int, "name"@) == Some(c) && p < c < w.tree.len()
            && w.tree[c as int].kind == "identifier"@ implies facts(w).wildcards.contains(w.tree[c as int].text) by {
        assert(crate::dead::walk::naming(w.tree, c as int) == Some(c));
        assert(crate::dead::walk::naming(w.tree, p as int) == Some(c));
        assert(facts(w).wildcards[was.len() as int] == step(w, i).0.wildcards[was.len() as int]);
    }
}

/// `impl Trait for Type` is an implementation of the trait for the type.
pub proof fn a_trait_impl_is_noted(w: Reading, i: int, ty: usize, tr: usize)
    requires
        w.lang == Language::Rust,
        0 <= i < w.tree.len(),
        w.tree[i].kind == "impl_item"@,
        child_of(w.tree, i, "type"@) == Some(ty),
        ty < w.tree.len(),
        w.tree[ty as int].kind == "type_identifier"@,
        child_of(w.tree, i, "trait"@) == Some(tr),
        tr < w.tree.len(),
        w.tree[tr as int].kind == "type_identifier"@,
    ensures
        facts(w).impls.contains((w.tree[ty as int].text, w.tree[tr as int].text)),
{
    more_kinds();
    has_children(w.tree, i, "type"@);
    step_is_kept(w, i);
    assert(crate::dead::walk::naming(w.tree, ty as int) == Some(ty));
    assert(crate::dead::walk::naming(w.tree, tr as int) == Some(tr));
    let was = run(w, i).0.impls;
    assert(step(w, i).0.impls == was.push((w.tree[ty as int].text, w.tree[tr as int].text)));
    assert(facts(w).impls[was.len() as int] == step(w, i).0.impls[was.len() as int]);
}

/// A function in such an implementation is exempt: the trait asks for it. It is a method of the type.
#[verifier::spinoff_prover]
#[verifier::rlimit(60)]
pub proof fn a_function_of_a_trait_impl_is_exempt(w: Reading, i: int, ty: usize, tr: usize, b: usize, j: int, n: usize)
    requires
        tree_ok(w.tree),
        w.lang == Language::Rust,
        0 <= i < b < j < w.tree.len(),
        w.tree[i].kind == "impl_item"@,
        child_of(w.tree, i, "type"@) == Some(ty),
        ty < w.tree.len(),
        w.tree[ty as int].kind == "type_identifier"@,
        child_of(w.tree, i, "trait"@) == Some(tr),
        tr < w.tree.len(),
        w.tree[tr as int].kind == "type_identifier"@,
        w.tree[b as int].kind == "declaration_list"@,
        w.tree[b as int].children.len() > 0,
        w.tree[b as int].parent == Some(i as usize),
        w.tree[j].kind == "function_item"@,
        w.tree[j].parent == Some(b),
        child_of(w.tree, j, "name"@) == Some(n),
    ensures
        exists|k: int|
            0 <= k < facts(w).defs.len() && (#[trigger] facts(w).defs[k]).name == w.tree[n as int].text && facts(w).defs[k].kind == "method"@ && facts(
                w,
            ).defs[k].exempt is Some && facts(w).defs[k].start_line == w.tree[j].line && facts(w).defs[k].qualified == w.tree[ty as int].text
                + "::"@ + w.tree[n as int].text,
{
    more_kinds();
    has_children(w.tree, i, "type"@);
    has_children(w.tree, j, "name"@);
    assert(crate::dead::walk::naming(w.tree, ty as int) == Some(ty));
    assert(crate::dead::walk::naming(w.tree, tr as int) == Some(tr));
    ctx_comes_from_parent(w, b as int);
    ctx_comes_from_parent(w, j);
    assert(step(w, i).1.trait_impl && step(w, i).1.owner == Some(ty));
    assert(ctx_of(w, b as int).trait_impl && ctx_of(w, b as int).owner == Some(ty));
    assert(step(w, b as int).1 == ctx_of(w, b as int));
    assert(ctx_of(w, j).trait_impl && ctx_of(w, j).owner == Some(ty));
    step_is_kept(w, j);
    let k = run(w, j).0.defs.len() as int;
    assert(facts(w).defs[k] == step(w, j).0.defs[k]);
    assert(facts(w).defs[k].name == w.tree[n as int].text);
}

/// A word of a documentation comment is a mention in the docs, of any language.
pub proof fn a_comment_mentions_its_words(w: Reading, i: int, x: int)
    requires
        0 <= i < w.tree.len(),
        w.tree[i].children.len() == 0,
        if w.lang == Language::Rust {
            w.tree[i].kind == "doc_comment"@
        } else {
            w.tree[i].kind == "comment"@
        },
        0 <= x < crate::text::words_of(w.tree[i].text).len(),
    ensures
        facts(w).docs.contains(crate::text::words_of(w.tree[i].text)[x]),
{
    more_kinds();
    reveal_strlit("comment");
    reveal_strlit("string_fragment");
    reveal_strlit("string_content");
    reveal_strlit("property_identifier");
    reveal_strlit("shorthand_property_identifier");
    reveal_strlit("shorthand_property_identifier_pattern");
    assert("comment"@.len() == 7);
    step_is_kept(w, i);
    let was = run(w, i).0.docs;
    let words = crate::text::words_of(w.tree[i].text);
    assert(step(w, i).0.docs == was + words);
    assert(facts(w).docs[was.len() + x] == step(w, i).0.docs[was.len() + x]);
}

/// An item with an attribute of the settings right before it is exempt.
#[verifier::spinoff_prover]
#[verifier::rlimit(60)]
pub proof fn an_attribute_exempts_its_item(w: Reading, i: int, n: usize, p: usize, a: usize, m: usize)
    requires
        w.lang == Language::Rust,
        0 <= i < w.tree.len(),
        child_of(w.tree, i, "name"@) == Some(n),
        ({
            let k = w.tree[i].kind;
            k == "function_item"@ || k == "function_signature_item"@ || k == "struct_item"@ || k == "enum_item"@ || k == "union_item"@ || k
                == "trait_item"@ || k == "type_item"@ || k == "const_item"@ || k == "static_item"@ || k == "mod_item"@
        }),
        crate::tree::before_of(w.tree, i, false) == Some(p),
        p < i,
        w.tree[p as int].kind == "attribute_item"@,
        named_at(w.tree, p as int, 0) == Some(a),
        w.tree[a as int].kind == "attribute"@,
        named_at(w.tree, a as int, 0) == Some(m),
        w.cfg.symbols.skip_attrs.deep_view().contains(w.tree[m as int].text),
    ensures
        exists|k: int|
            0 <= k < facts(w).defs.len() && (#[trigger] facts(w).defs[k]).name == w.tree[n as int].text && facts(w).defs[k].start_line
                == w.tree[i].line && facts(w).defs[k].exempt is Some,
{
    more_kinds();
    has_children(w.tree, i, "name"@);
    step_is_kept(w, i);
    let attrs = crate::dead::walk::attributes(w.tree, i);
    assert(attrs.len() > 0 && attrs[0].0 == w.tree[m as int].text);
    assert(crate::dead::walk::exempting(attrs, w.cfg.symbols.skip_attrs.deep_view(), 0) is Some);
    let k = run(w, i).0.defs.len() as int;
    assert(step(w, i).0.defs.len() == k + 1);
    assert(facts(w).defs[k] == step(w, i).0.defs[k]);
    assert(facts(w).defs[k].name == w.tree[n as int].text);
}

// ---------- TypeScript: variables and tests ----------

/// A value that makes its variable a function.
pub open spec fn is_function_value(kind: Chars) -> bool {
    kind == "arrow_function"@ || kind == "function_expression"@ || kind == "function"@ || kind == "generator_function"@
}

proof fn declarator_is_listed(t: Nodes, kids: Seq<usize>, k: int, m: int, ctx: Ctx, st: FactsView, cfg: Dead, path: Chars, n: usize)
    requires
        0 <= k <= m < kids.len(),
        t[kids[m] as int].kind == "variable_declarator"@,
        child_of(t, kids[m] as int, "name"@) == Some(n),
        t[n as int].kind == "identifier"@,
    ensures
        ({
            let d = t[kids[m] as int];
            let f = match child_of(t, kids[m] as int, "value"@) {
                Some(v) => is_function_value(t[v as int].kind),
                None => false,
            };
            defines(
                ts_declarators(t, kids, k, ctx, st, cfg, path),
                t[n as int].text,
                if f { "fn"@ } else { "const"@ },
                if ctx.exported { Visibility::Public } else { Visibility::Private },
                d.line,
                d.end_line,
            )
        }),
    decreases m - k,
{
    let next = ts_declarator(t, kids[k], ctx, st, cfg, path);
    if k == m {
        declarators_grow(t, kids, k + 1, ctx, next, cfg, path);
        reveal(grows);
        let all = ts_declarators(t, kids, k, ctx, st, cfg, path);
        let x = st.defs.len() as int;
        assert(next.defs.len() == x + 1);
        assert(all.defs[x] == next.defs[x]);
        assert(all.defs[x].name == t[n as int].text);
    } else {
        declarator_is_listed(t, kids, k + 1, m, ctx, next, cfg, path, n);
    }
}

/// Every variable of a `const`, `let` or `var` is a definition: a function where its value is one,
/// public where its declaration is exported.
pub proof fn a_ts_variable_is_a_definition(w: Reading, i: int, x: int, n: usize)
    requires
        tree_ok(w.tree),
        w.lang == Language::TypeScript || w.lang == Language::Tsx || w.lang == Language::JavaScript,
        0 <= i < w.tree.len(),
        w.tree[i].kind == "lexical_declaration"@ || w.tree[i].kind == "variable_declaration"@,
        0 <= x < w.tree[i].children.len(),
        w.tree[w.tree[i].children[x] as int].named,
        w.tree[w.tree[i].children[x] as int].kind == "variable_declarator"@,
        child_of(w.tree, w.tree[i].children[x] as int, "name"@) == Some(n),
        w.tree[n as int].kind == "identifier"@,
    ensures
        ({
            let d = w.tree[i].children[x] as int;
            let f = match child_of(w.tree, d, "value"@) {
                Some(v) => is_function_value(w.tree[v as int].kind),
                None => false,
            };
            let exported = match w.tree[i].parent {
                Some(p) => w.tree[p as int].kind == "export_statement"@ && w.tree[i].field == "declaration"@,
                None => false,
            };
            defines(
                facts(w),
                w.tree[n as int].text,
                if f { "fn"@ } else { "const"@ },
                if exported { Visibility::Public } else { Visibility::Private },
                w.tree[d].line,
                w.tree[d].end_line,
            )
        }),
{
    ts_kinds();
    reveal_strlit("lexical_declaration");
    reveal_strlit("variable_declaration");
    ts_flags(w, i);
    step_is_kept(w, i);
    let t = w.tree;
    crate::tree::the_named_children_are_kept(t, i);
    let kids = named_kids(t, i);
    assert(kids.contains(t[i].children[x]));
    let m = choose|m: int| 0 <= m < kids.len() && kids[m] == t[i].children[x];
    declarator_is_listed(t, kids, 0, m, ctx_of(w, i), run(w, i).0, w.cfg, w.path, n);
    let all = ts_declarators(t, kids, 0, ctx_of(w, i), run(w, i).0, w.cfg, w.path);
    assert(step(w, i).0 == all);
    let f = match child_of(t, kids[m] as int, "value"@) {
        Some(v) => is_function_value(t[v as int].kind),
        None => false,
    };
    let kind = if f { "fn"@ } else { "const"@ };
    let vis = if ctx_of(w, i).exported { Visibility::Public } else { Visibility::Private };
    let k = choose|k: int|
        0 <= k < all.defs.len() && (#[trigger] all.defs[k]).name == t[n as int].text && all.defs[k].kind == kind && all.defs[k].visibility == vis
            && all.defs[k].start_line == t[kids[m] as int].line && all.defs[k].end_line == t[kids[m] as int].end_line;
    assert(facts(w).defs[k] == all.defs[k]);
}

/// What stands in a call of a test function, such as `describe`, is a test.
#[verifier::spinoff_prover]
#[verifier::rlimit(60)]
pub proof fn a_test_call_holds_tests(w: Reading, i: int, f: usize, j: int)
    requires
        tree_ok(w.tree),
        w.lang == Language::TypeScript || w.lang == Language::Tsx || w.lang == Language::JavaScript,
        0 <= i < j < w.tree.len(),
        w.tree[i].kind == "call_expression"@,
        child_of(w.tree, i, "function"@) == Some(f),
        w.tree[f as int].kind == "identifier"@,
        w.cfg.symbols.ts_test_calls.deep_view().contains(w.tree[f as int].text),
        within_node(w.tree, j, i),
        w.tree[j].children.len() == 0,
        w.tree[j].kind == "identifier"@,
        !declared_at(w.tree, w.lang, w.tree[j].start),
        !below(w.tree, j, "import_statement"@),
    ensures
        facts(w).mentions.contains((w.tree[j].text, true)),
{
    ts_kinds();
    reveal_strlit("call_expression");
    reveal_strlit("method_definition");
    reveal_strlit("lexical_declaration");
    reveal_strlit("variable_declaration");
    has_children(w.tree, i, "function"@);
    assert(step(w, i).1.in_test);
    tests_reach_down(w, i, j);
    if run(w, j).0.skip.contains(w.tree[j].start) {
        run_skips_names(w, j, w.tree[j].start);
    }
    ts_flags(w, j);
    step_is_kept(w, j);
    let was = run(w, j).0.mentions;
    assert(step(w, j).0.mentions == was.push((w.tree[j].text, true)));
    assert(facts(w).mentions[was.len() as int] == step(w, j).0.mentions[was.len() as int]);
}

/// Node `j` stands in node `i`.
pub open spec fn within_node(t: Nodes, j: int, i: int) -> bool
    decreases j,
{
    0 <= j < t.len() && (t[j].parent matches Some(p) && p < j && (p == i || within_node(t, p as int, i)))
}

proof fn tests_reach_down(w: Reading, i: int, j: int)
    requires
        tree_ok(w.tree),
        0 <= i < j < w.tree.len(),
        step(w, i).1.in_test,
        within_node(w.tree, j, i),
    ensures
        ctx_of(w, j).in_test,
    decreases j,
{
    ctx_comes_from_parent(w, j);
    let p = w.tree[j].parent->0 as int;
    if p != i {
        assert(i < p) by {
            within_is_later(w.tree, p, i);
        }
        tests_reach_down(w, i, p);
        flags_are_handed_down(w.tree, p, ctx_of(w, p), run(w, p).0, w.lang, w.cfg, w.path);
    }
}

proof fn within_is_later(t: Nodes, j: int, i: int)
    requires
        within_node(t, j, i),
    ensures
        i < j,
    decreases j,
{
    let p = t[j].parent->0 as int;
    if p != i {
        within_is_later(t, p, i);
    }
}

// ---------- Python: names of a module ----------

/// A name assigned at the top of a module is a definition: a constant where it has capitals and no
/// small letters, public without a leading `_`.
#[verifier::spinoff_prover]
#[verifier::rlimit(60)]
pub proof fn a_module_name_is_a_definition(w: Reading, i: int, l: usize, e: usize, m: usize)
    requires
        tree_ok(w.tree),
        w.lang == Language::Python,
        0 <= i < w.tree.len(),
        w.tree[i].kind == "assignment"@,
        child_of(w.tree, i, "left"@) == Some(l),
        w.tree[l as int].kind == "identifier"@,
        w.tree[i].parent == Some(e),
        w.tree[e as int].kind == "expression_statement"@,
        w.tree[e as int].parent == Some(m),
        w.tree[m as int].kind == "module"@,
    ensures
        ({
            let name = w.tree[l as int].text;
            let big = exists|k: int| 0 <= k < name.len() && 'A' <= #[trigger] name[k] <= 'Z';
            let small = exists|k: int| 0 <= k < name.len() && 'a' <= #[trigger] name[k] <= 'z';
            defines(
                facts(w),
                name,
                if big && !small { "const"@ } else { "var"@ },
                if name.len() > 0 && name[0] == '_' { Visibility::Private } else { Visibility::Public },
                w.tree[i].line,
                w.tree[i].end_line,
            )
        }),
{
    reveal_strlit("function_definition");
    reveal_strlit("class_definition");
    reveal_strlit("assignment");
    reveal_strlit("_");
    assert("assignment"@.len() == 10 && "function_definition"@.len() == 19 && "class_definition"@.len() == 16);
    has_children(w.tree, i, "left"@);
    ctx_comes_from_parent(w, i);
    assert(ctx_of(w, i).parent == Some(e));
    step_is_kept(w, i);
    let name = w.tree[l as int].text;
    if name.len() > 0 && name[0] == '_' {
        assert(name.subrange(0, 1) =~= "_"@);
    } else if crate::text::starts(name, "_"@) {
        assert(name.subrange(0, 1)[0] == '_');
    }
    let big = exists|k: int| 0 <= k < name.len() && 'A' <= #[trigger] name[k] <= 'Z';
    let small = exists|k: int| 0 <= k < name.len() && 'a' <= #[trigger] name[k] <= 'z';
    assert(crate::dead::walk::shouted(name) == (big && !small));
    let k = run(w, i).0.defs.len() as int;
    assert(step(w, i).0.defs.len() == k + 1);
    assert(facts(w).defs[k] == step(w, i).0.defs[k]);
    assert(facts(w).defs[k].name == name);
}

/// What stands in a Python function whose name starts with `test_` is a test.
#[verifier::spinoff_prover]
#[verifier::rlimit(60)]
pub proof fn a_test_function_holds_tests(w: Reading, i: int, n: usize, j: int)
    requires
        tree_ok(w.tree),
        w.lang == Language::Python,
        0 <= i < j < w.tree.len(),
        w.tree[i].kind == "function_definition"@,
        child_of(w.tree, i, "name"@) == Some(n),
        crate::text::starts(w.tree[n as int].text, "test_"@),
        within_node(w.tree, j, i),
        w.tree[j].children.len() == 0,
        w.tree[j].kind == "identifier"@,
        !declared_at(w.tree, w.lang, w.tree[j].start),
    ensures
        facts(w).mentions.contains((w.tree[j].text, true)),
{
    reveal_strlit("function_definition");
    reveal_strlit("class_definition");
    has_children(w.tree, i, "name"@);
    assert(step(w, i).1.in_test);
    tests_reach_down(w, i, j);
    if run(w, j).0.skip.contains(w.tree[j].start) {
        run_skips_names(w, j, w.tree[j].start);
    }
    step_is_kept(w, j);
    let was = run(w, j).0.mentions;
    assert(step(w, j).0.mentions == was.push((w.tree[j].text, true)));
    assert(facts(w).mentions[was.len() as int] == step(w, j).0.mentions[was.len() as int]);
}

} // verus!
