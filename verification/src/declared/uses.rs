//! What a Rust file refers to, stated over its nodes.

use vstd::prelude::*;

use crate::config::Declared;
use crate::declared::laws::{
    effect_matches, every_orphan_is_unreferred, is_nearest, rightly_orphaned, unreferred,
};
use crate::declared::orphans::{checked_upto, PassView};
use crate::declared::side::{
    access_added, args_of, attrs_from, attrs_over, bare_args, build_script, config_names, crate_added, ctx_at,
    empty_side, fields_from, generic_added, ident_texts, let_added, literal_added, named_feature, node_step, path_added,
    plumbing, refs_in, roots_added, roots_from, roots_of, side_of, struct_added, tested, token_added, types_added,
    unquoted, walked_from, Ctx, SettingView, SideView,
};
use crate::discover::{FileKind, SourceFile};
use crate::lang::Language;
use crate::names::no_refs;
use crate::patterns::pattern_hit;
use crate::regions::{within, TestRegion};
use crate::text::{ends, Chars};
use crate::tree::{
    after_of, before_of, child_of, named_at, named_kids, the_named_children_are_kept, tree_ok, Nodes,
};

verus! {

proof fn side_kinds_differ()
    ensures
        "line_comment"@.len() == 12,
        "line_comment"@[0] == 'l',
        "block_comment"@.len() == 13,
        "block_comment"@[0] == 'b',
        "use_declaration"@.len() == 15,
        "use_declaration"@[0] == 'u',
        "extern_crate_declaration"@.len() == 24,
        "scoped_identifier"@.len() == 17,
        "scoped_identifier"@[0] == 's',
        "scoped_type_identifier"@.len() == 22,
        "identifier"@.len() == 10,
        "identifier"@[0] == 'i',
        "token_tree"@.len() == 10,
        "token_tree"@[0] == 't',
        "inner_attribute_item"@.len() == 20,
        "attribute_item"@.len() == 14,
        "attribute_item"@[0] == 'a',
        "struct_item"@.len() == 11,
        "function_item"@.len() == 13,
        "function_item"@[0] == 'f',
        "function_item"@[1] == 'u',
        "impl_item"@.len() == 9,
        "field_expression"@.len() == 16,
        "field_expression"@[0] == 'f',
        "field_pattern"@.len() == 13,
        "field_pattern"@[0] == 'f',
        "field_pattern"@[1] == 'i',
        "index_expression"@.len() == 16,
        "index_expression"@[0] == 'i',
        "let_declaration"@.len() == 15,
        "let_declaration"@[0] == 'l',
        "generic_function"@.len() == 16,
        "generic_function"@[0] == 'g',
        "string_literal"@.len() == 14,
        "string_literal"@[0] == 's',
        "raw_string_literal"@.len() == 18,
        "scoped_use_list"@.len() == 15,
        "scoped_use_list"@[0] == 's',
        "use_as_clause"@.len() == 13,
        "use_as_clause"@[0] == 'u',
        "use_list"@.len() == 8,
        "use_wildcard"@.len() == 12,
        "use_wildcard"@[0] == 'u',
        "field_declaration"@.len() == 17,
        "field_declaration"@[0] == 'f',
        "type_identifier"@.len() == 15,
        "type_identifier"@[0] == 't',
        "generic_type"@.len() == 12,
        "generic_type"@[0] == 'g',
{
    reveal_strlit("line_comment");
    reveal_strlit("block_comment");
    reveal_strlit("use_declaration");
    reveal_strlit("extern_crate_declaration");
    reveal_strlit("scoped_identifier");
    reveal_strlit("scoped_type_identifier");
    reveal_strlit("identifier");
    reveal_strlit("token_tree");
    reveal_strlit("inner_attribute_item");
    reveal_strlit("attribute_item");
    reveal_strlit("struct_item");
    reveal_strlit("function_item");
    reveal_strlit("impl_item");
    reveal_strlit("field_expression");
    reveal_strlit("field_pattern");
    reveal_strlit("index_expression");
    reveal_strlit("let_declaration");
    reveal_strlit("generic_function");
    reveal_strlit("string_literal");
    reveal_strlit("raw_string_literal");
    reveal_strlit("scoped_use_list");
    reveal_strlit("use_as_clause");
    reveal_strlit("use_list");
    reveal_strlit("use_wildcard");
    reveal_strlit("field_declaration");
    reveal_strlit("type_identifier");
    reveal_strlit("generic_type");
}

/// A Rust file as it is read: its tree, where its tests stand, and the settings.
pub struct Scan {
    pub tree: Nodes,
    pub file: SourceFile,
    pub regions: Seq<TestRegion>,
    pub cfg: Declared,
}

/// What is found in the file.
pub open spec fn seen(w: Scan) -> SideView {
    side_of(Some(w.tree), w.file, w.regions, w.cfg)
}

/// Rust is read.
pub open spec fn reads_rust(w: Scan) -> bool {
    w.file.lang == Language::Rust && w.cfg.languages.deep_view().contains("rust"@)
}

/// A node stands in a test: its file is one, or it lies in a test of the file.
pub open spec fn in_test(w: Scan, i: int) -> bool {
    w.file.kind == FileKind::Test || within(w.regions, w.tree[i].start)
}

/// A node `a` encloses node `i`.
pub open spec fn encloses(t: Nodes, a: int, i: int) -> bool
    decreases i,
{
    0 <= i < t.len() && (t[i].parent matches Some(p) && p < i && (p == a || encloses(t, a, p as int)))
}

/// A node in which nothing counts on its own: a comment, an import, a literal or a name.
pub open spec fn closed_in(t: Nodes, a: int) -> bool {
    let kind = t[a].kind;
    ||| kind == "line_comment"@
    ||| kind == "block_comment"@
    ||| kind == "use_declaration"@
    ||| kind == "extern_crate_declaration"@
    ||| kind == "identifier"@
    ||| kind == "string_literal"@
    ||| kind == "raw_string_literal"@
}

/// A node that counts: no comment, import, literal or name encloses it.
pub open spec fn counts(t: Nodes, i: int) -> bool {
    0 <= i < t.len() && forall|a: int| #[trigger] encloses(t, a, i) ==> !closed_in(t, a)
}

/// A node where a field is handed on and not read: an `impl` of `Default`, `Serialize` or
/// `Deserialize`, or a function named like one that writes.
pub open spec fn hands_on(w: Scan, a: int) -> bool {
    ||| w.tree[a].kind == "impl_item"@ && plumbing(w.tree, a)
    ||| w.tree[a].kind == "function_item"@ && (child_of(w.tree, a, "name"@) matches Some(f) && pattern_hit(
        w.cfg.serialize_fn_regex@,
        false,
        w.tree[f as int].text,
    ))
}

/// A node that counts and that no such `impl` or function encloses.
pub open spec fn reads_at(w: Scan, i: int) -> bool {
    counts(w.tree, i) && forall|a: int| #[trigger] encloses(w.tree, a, i) ==> !hands_on(w, a)
}

/// A node stands in the tokens of a macro.
pub open spec fn in_tokens(t: Nodes, i: int) -> bool {
    exists|a: int| #[trigger] encloses(t, a, i) && t[a].kind == "token_tree"@
}

// ---------- the course of a walk ----------

spec fn setting(w: Scan) -> SettingView {
    SettingView {
        regions: w.regions,
        test_file: w.file.kind == FileKind::Test,
        build: build_script(w.file.path@),
        writes: w.cfg.serialize_fn_regex@,
    }
}

spec fn run(w: Scan, n: int) -> (SideView, Seq<Ctx>)
    decreases n,
{
    if n <= 0 {
        (empty_side(w.file.path@, true, w.file.kind == FileKind::Test), Seq::empty())
    } else {
        let (s, bases) = run(w, n - 1);
        let (next, base) = node_step(w.tree, n - 1, ctx_at(w.tree, n - 1, bases), s, setting(w));
        (next, bases.push(base))
    }
}

spec fn ctx_of(w: Scan, i: int) -> Ctx {
    ctx_at(w.tree, i, run(w, i).1)
}

spec fn step(w: Scan, i: int) -> (SideView, Ctx) {
    node_step(w.tree, i, ctx_of(w, i), run(w, i).0, setting(w))
}

proof fn run_is_walk(w: Scan, n: int)
    requires
        0 <= n <= w.tree.len(),
        reads_rust(w),
    ensures
        seen(w) == walked_from(w.tree, n, run(w, n).0, run(w, n).1, setting(w)),
        run(w, n).1.len() == n,
    decreases n,
{
    if n > 0 {
        run_is_walk(w, n - 1);
    }
}

spec fn begins<A>(a: Seq<A>, b: Seq<A>) -> bool {
    a.len() <= b.len() && forall|i: int| 0 <= i < a.len() ==> #[trigger] b[i] == a[i]
}

#[verifier::opaque]
spec fn grows(a: SideView, b: SideView) -> bool {
    &&& begins(a.crate_refs, b.crate_refs)
    &&& begins(a.feature_refs, b.feature_refs)
    &&& begins(a.build_feature_env, b.build_feature_env)
    &&& begins(a.cfg_test_mods, b.cfg_test_mods)
    &&& begins(a.structs, b.structs)
    &&& begins(a.consumed_types, b.consumed_types)
    &&& begins(a.field_reads, b.field_reads)
    &&& begins(a.config_literals, b.config_literals)
    &&& a.lint_silenced is Some ==> b.lint_silenced == a.lint_silenced
}

proof fn begins_on<A>(a: Seq<A>, b: Seq<A>, c: Seq<A>)
    requires
        begins(a, b),
        begins(b, c),
    ensures
        begins(a, c),
{
    assert forall|i: int| 0 <= i < a.len() implies #[trigger] c[i] == a[i] by {
        assert(b[i] == a[i]);
    }
}

proof fn growing_is_transitive(a: SideView, b: SideView, c: SideView)
    requires
        grows(a, b),
        grows(b, c),
    ensures
        grows(a, c),
{
    reveal(grows);
    begins_on(a.crate_refs, b.crate_refs, c.crate_refs);
    begins_on(a.feature_refs, b.feature_refs, c.feature_refs);
    begins_on(a.build_feature_env, b.build_feature_env, c.build_feature_env);
    begins_on(a.cfg_test_mods, b.cfg_test_mods, c.cfg_test_mods);
    begins_on(a.structs, b.structs, c.structs);
    begins_on(a.consumed_types, b.consumed_types, c.consumed_types);
    begins_on(a.field_reads, b.field_reads, c.field_reads);
    begins_on(a.config_literals, b.config_literals, c.config_literals);
}

proof fn roots_grow(s: SideView, names: Seq<Chars>, test: bool)
    ensures
        grows(s, roots_added(s, names, test)),
    decreases names.len(),
{
    reveal(grows);
    if names.len() > 0 {
        let rest = roots_added(s, names.drop_last(), test);
        roots_grow(s, names.drop_last(), test);
        assert(grows(rest, crate_added(rest, names.last(), test)));
        growing_is_transitive(s, rest, crate_added(rest, names.last(), test));
    }
}

proof fn types_grow(t: Nodes, kids: Seq<usize>, format: Chars, s: SideView)
    ensures
        grows(s, types_added(t, kids, format, s)),
    decreases kids.len(),
{
    reveal(grows);
    if kids.len() > 0 {
        let rest = types_added(t, kids.drop_last(), format, s);
        types_grow(t, kids.drop_last(), format, s);
        assert(grows(rest, types_added(t, kids, format, s)));
        growing_is_transitive(s, rest, types_added(t, kids, format, s));
    }
}

#[verifier::spinoff_prover]
#[verifier::rlimit(60)]
proof fn pieces_grow(t: Nodes, i: int, ctx: Ctx, s: SideView, test: bool, build: bool)
    ensures
        grows(s, path_added(t, i, s, test)),
        grows(s, struct_added(t, i, s, test)),
        grows(s, access_added(t, i, ctx, s, test)),
        grows(s, let_added(t, i, s)),
{
    reveal(grows);
}

#[verifier::spinoff_prover]
#[verifier::rlimit(60)]
proof fn token_grows(t: Nodes, i: int, ctx: Ctx, s: SideView, test: bool)
    ensures
        grows(s, token_added(t, i, ctx, s, test)),
{
    reveal(grows);
}

#[verifier::spinoff_prover]
#[verifier::rlimit(60)]
proof fn literal_grows(s: SideView, text: Chars, build: bool)
    ensures
        grows(s, literal_added(s, text, build)),
{
    reveal(grows);
}

proof fn generic_grows(t: Nodes, i: int, s: SideView)
    ensures
        grows(s, generic_added(t, i, s)),
{
    if let (Some(f), Some(args)) = (child_of(t, i, "function"@), child_of(t, i, "type_arguments"@)) {
        if let Some(format) = crate::declared::side::format_of(t[f as int].text) {
            types_grow(t, named_kids(t, args as int), format, s);
        }
    }
    reveal(grows);
}

#[verifier::spinoff_prover]
#[verifier::rlimit(60)]
proof fn step_grows(t: Nodes, i: int, ctx: Ctx, s: SideView, set: SettingView)
    ensures
        grows(s, node_step(t, i, ctx, s, set).0),
{
    let test = tested(t, i, set);
    if let Some(a) = child_of(t, i, "argument"@) {
        roots_grow(s, roots_of(t, a as int), test);
    }
    pieces_grow(t, i, ctx, s, test, set.build);
    token_grows(t, i, ctx, s, test);
    literal_grows(s, t[i].text, set.build);
    generic_grows(t, i, s);
    reveal(grows);
}

proof fn rest_grows(w: Scan, n: int, s: SideView, bases: Seq<Ctx>)
    ensures
        grows(s, walked_from(w.tree, n, s, bases, setting(w))),
    decreases w.tree.len() - n,
{
    if 0 <= n < w.tree.len() {
        let (next, base) = node_step(w.tree, n, ctx_at(w.tree, n, bases), s, setting(w));
        step_grows(w.tree, n, ctx_at(w.tree, n, bases), s, setting(w));
        rest_grows(w, n + 1, next, bases.push(base));
        growing_is_transitive(s, next, walked_from(w.tree, n + 1, next, bases.push(base), setting(w)));
    } else {
        reveal(grows);
    }
}

proof fn step_is_kept(w: Scan, i: int)
    requires
        0 <= i < w.tree.len(),
        reads_rust(w),
    ensures
        grows(step(w, i).0, seen(w)),
        grows(run(w, i).0, step(w, i).0),
{
    run_is_walk(w, i);
    let next = step(w, i);
    rest_grows(w, i + 1, next.0, run(w, i).1.push(next.1));
    step_grows(w.tree, i, ctx_of(w, i), run(w, i).0, setting(w));
}

proof fn bases_are_steps(w: Scan, n: int, p: int)
    requires
        0 <= p < n,
    ensures
        run(w, n).1.len() == n,
        run(w, n).1[p] == step(w, p).1,
    decreases n,
{
    if n > 1 {
        if p < n - 1 {
            bases_are_steps(w, n - 1, p);
        } else {
            bases_are_steps(w, n - 1, n - 2);
        }
    } else {
        assert(run(w, 0).1.len() == 0);
    }
}

/// What is known of the context of a node.
#[verifier::spinoff_prover]
#[verifier::rlimit(60)]
proof fn context_is_by_enclosing(w: Scan, i: int)
    requires
        tree_ok(w.tree),
        0 <= i < w.tree.len(),
    ensures
        counts(w.tree, i) ==> !ctx_of(w, i).off,
        reads_at(w, i) ==> !ctx_of(w, i).excluded,
        counts(w.tree, i) && in_tokens(w.tree, i) ==> ctx_of(w, i).in_tt,
        ctx_of(w, i).in_tt ==> in_tokens(w.tree, i),
        w.tree[i].parent matches Some(p) ==> ctx_of(w, i).call_fn == (w.tree[p as int].kind == "call_expression"@ && child_of(
            w.tree,
            p as int,
            "function"@,
        ) == Some(i as usize)),
    decreases i,
{
    side_kinds_differ();
    let t = w.tree;
    assert(crate::tree::node_ok(t, i));
    match t[i].parent {
        Some(p) => {
            let q = p as int;
            context_is_by_enclosing(w, q);
            bases_are_steps(w, i, q);
            assert(encloses(t, q, i));
            assert forall|a: int| #[trigger] encloses(t, a, q) implies encloses(t, a, i) by {}
            if counts(t, i) {
                assert(counts(t, q));
            }
            if reads_at(w, i) {
                assert(reads_at(w, q));
            }
            if in_tokens(t, i) {
                let a = choose|a: int| #[trigger] encloses(t, a, i) && t[a].kind == "token_tree"@;
                if a != q {
                    assert(encloses(t, a, q));
                }
            }
            if in_tokens(t, q) {
                let a = choose|a: int| #[trigger] encloses(t, a, q) && t[a].kind == "token_tree"@;
                assert(encloses(t, a, i));
            }
        },
        None => {
            assert forall|a: int| !#[trigger] encloses(t, a, i) by {}
        },
    }
}

// ---------- crates ----------

/// A file names a crate, in a test or out of one.
pub open spec fn names_crate(w: Scan, name: Chars, test: bool) -> bool {
    seen(w).crate_refs.contains((name, test))
}

proof fn added_is_named(w: Scan, i: int, was: SideView, name: Chars, test: bool)
    requires
        0 <= i < w.tree.len(),
        reads_rust(w),
        name.len() > 0,
        step(w, i).0.crate_refs.contains((name, test)),
    ensures
        names_crate(w, name, test),
{
    step_is_kept(w, i);
    reveal(grows);
    let list = step(w, i).0.crate_refs;
    let k = choose|k: int| 0 <= k < list.len() && list[k] == (name, test);
    assert(seen(w).crate_refs[k] == list[k]);
}

proof fn roots_are_added(s: SideView, names: Seq<Chars>, test: bool, k: int)
    requires
        0 <= k < names.len(),
        names[k].len() > 0,
    ensures
        roots_added(s, names, test).crate_refs.contains((names[k], test)),
    decreases names.len(),
{
    let rest = roots_added(s, names.drop_last(), test);
    let all = roots_added(s, names, test);
    if k == names.len() - 1 {
        assert(all.crate_refs[rest.crate_refs.len() as int] == (names[k], test));
    } else {
        roots_are_added(s, names.drop_last(), test, k);
        let x = choose|x: int| 0 <= x < rest.crate_refs.len() && rest.crate_refs[x] == (names[k], test);
        assert(all.crate_refs[x] == (names[k], test));
    }
}

/// A `use` names each crate that its tree starts from.
pub proof fn a_use_names_its_crates(w: Scan, i: int, a: usize, k: int)
    requires
        tree_ok(w.tree),
        reads_rust(w),
        counts(w.tree, i),
        w.tree[i].kind == "use_declaration"@,
        child_of(w.tree, i, "argument"@) == Some(a),
        0 <= k < roots_of(w.tree, a as int).len(),
        roots_of(w.tree, a as int)[k].len() > 0,
    ensures
        names_crate(w, roots_of(w.tree, a as int)[k], in_test(w, i)),
{
    side_kinds_differ();
    context_is_by_enclosing(w, i);
    roots_are_added(run(w, i).0, roots_of(w.tree, a as int), in_test(w, i), k);
    added_is_named(w, i, run(w, i).0, roots_of(w.tree, a as int)[k], in_test(w, i));
}

/// A path of a `use` starts from its first part: a name from itself, `a::b` and `a::{..}` from where
/// `a` starts, `::b` from `b`, and `a as c` from where `a` does.
pub proof fn a_use_starts_from_its_first_part(t: Nodes, n: int)
    requires
        tree_ok(t),
        0 <= n < t.len(),
    ensures
        t[n].kind == "identifier"@ ==> roots_of(t, n) == seq![t[n].text],
        (t[n].kind == "scoped_identifier"@ || t[n].kind == "scoped_use_list"@ || t[n].kind == "use_as_clause"@) && child_of(t, n, "path"@) is Some
            ==> roots_of(t, n) == roots_of(t, child_of(t, n, "path"@).unwrap() as int),
        t[n].kind == "scoped_identifier"@ && child_of(t, n, "path"@) is None && child_of(t, n, "name"@) is Some ==> roots_of(t, n) == roots_of(
            t,
            child_of(t, n, "name"@).unwrap() as int,
        ),
        t[n].kind == "scoped_use_list"@ && child_of(t, n, "path"@) is None && child_of(t, n, "name"@) is None && child_of(t, n, "list"@) is Some
            ==> roots_of(t, n) == roots_of(t, child_of(t, n, "list"@).unwrap() as int),
{
    side_kinds_differ();
    child_is_later(t, n, "path"@);
    child_is_later(t, n, "name"@);
    child_is_later(t, n, "list"@);
}

proof fn child_is_later(t: Nodes, n: int, field: Chars)
    requires
        tree_ok(t),
        0 <= n < t.len(),
    ensures
        child_of(t, n, field) matches Some(c) ==> n < c < t.len(),
{
    assert(crate::tree::node_ok(t, n));
    filling_is_later(t, n, field, 0);
}

proof fn filling_is_later(t: Nodes, n: int, field: Chars, k: int)
    requires
        0 <= k,
        crate::tree::node_ok(t, n),
    ensures
        crate::tree::filling(t, t[n].children, field, k) matches Some(c) ==> n < c < t.len(),
    decreases t[n].children.len() - k,
{
    if k < t[n].children.len() {
        assert(n < t[n].children[k] < t.len());
        filling_is_later(t, n, field, k + 1);
    }
}

/// A list or a wildcard starts from where each of its parts does.
pub proof fn a_use_list_starts_from_its_parts(t: Nodes, n: int, k: int, name: Chars)
    requires
        tree_ok(t),
        0 <= n < t.len(),
        t[n].kind == "use_list"@ || t[n].kind == "use_wildcard"@,
        0 <= k < t[n].children.len(),
        t[t[n].children[k] as int].named,
        roots_of(t, t[n].children[k] as int).contains(name),
    ensures
        roots_of(t, n).contains(name),
{
    side_kinds_differ();
    assert(crate::tree::node_ok(t, n));
    the_named_children_are_kept(t, n);
    let kids = named_kids(t, n);
    assert(kids.contains(t[n].children[k]));
    let m = choose|m: int| 0 <= m < kids.len() && kids[m] == t[n].children[k];
    assert(n < t[n].children[k] < t.len());
    roots_keep(t, n, 0, m, name);
}

proof fn roots_keep(t: Nodes, n: int, j: int, m: int, name: Chars)
    requires
        0 <= n < t.len(),
        0 <= j <= m < named_kids(t, n).len(),
        n < named_kids(t, n)[m] < t.len(),
        roots_of(t, named_kids(t, n)[m] as int).contains(name),
    ensures
        roots_from(t, n, j).contains(name),
    decreases m - j,
{
    let c = named_kids(t, n)[j] as int;
    let first = if n < c < t.len() { roots_of(t, c) } else { Seq::empty() };
    let rest = roots_from(t, n, j + 1);
    let all = roots_from(t, n, j);
    assert(all == first + rest);
    if j == m {
        let x = choose|x: int| 0 <= x < first.len() && first[x] == name;
        assert(all[x] == name);
    } else {
        roots_keep(t, n, j + 1, m, name);
        let x = choose|x: int| 0 <= x < rest.len() && rest[x] == name;
        assert(all[first.len() + x] == name);
    }
}

/// `extern crate a;` names `a`.
pub proof fn an_extern_crate_is_named(w: Scan, i: int, n: usize)
    requires
        tree_ok(w.tree),
        reads_rust(w),
        counts(w.tree, i),
        w.tree[i].kind == "extern_crate_declaration"@,
        child_of(w.tree, i, "name"@) == Some(n),
        w.tree[n as int].text.len() > 0,
    ensures
        names_crate(w, w.tree[n as int].text, in_test(w, i)),
{
    side_kinds_differ();
    context_is_by_enclosing(w, i);
    let was = run(w, i).0.crate_refs;
    assert(step(w, i).0.crate_refs[was.len() as int] == (w.tree[n as int].text, in_test(w, i)));
    added_is_named(w, i, run(w, i).0, w.tree[n as int].text, in_test(w, i));
}

/// A path `a::b` in code or in a type names `a`, and `::b` names `b`.
pub proof fn a_path_names_its_first_part(w: Scan, i: int, n: usize)
    requires
        tree_ok(w.tree),
        reads_rust(w),
        counts(w.tree, i),
        w.tree[i].kind == "scoped_identifier"@ || w.tree[i].kind == "scoped_type_identifier"@,
        child_of(w.tree, i, "path"@) == Some(n) && w.tree[n as int].kind == "identifier"@ || child_of(w.tree, i, "path"@) is None && child_of(
            w.tree,
            i,
            "name"@,
        ) == Some(n),
        w.tree[n as int].text.len() > 0,
    ensures
        names_crate(w, w.tree[n as int].text, in_test(w, i)),
{
    side_kinds_differ();
    context_is_by_enclosing(w, i);
    let was = run(w, i).0.crate_refs;
    assert(step(w, i).0.crate_refs[was.len() as int] == (w.tree[n as int].text, in_test(w, i)));
    added_is_named(w, i, run(w, i).0, w.tree[n as int].text, in_test(w, i));
}

/// In the tokens of a macro a name before `::` that nothing leads to names a crate.
pub proof fn a_leading_token_names_a_crate(w: Scan, i: int, n: usize)
    requires
        tree_ok(w.tree),
        reads_rust(w),
        counts(w.tree, i),
        in_tokens(w.tree, i),
        w.tree[i].kind == "identifier"@,
        after_of(w.tree, i, true) == Some(n),
        w.tree[n as int].kind == "::"@,
        before_of(w.tree, i, true) matches Some(p) ==> w.tree[p as int].kind != "::"@,
        w.tree[i].text.len() > 0,
    ensures
        names_crate(w, w.tree[i].text, in_test(w, i)),
{
    side_kinds_differ();
    context_is_by_enclosing(w, i);
    let was = run(w, i).0.crate_refs;
    assert(step(w, i).0.crate_refs[was.len() as int] == (w.tree[i].text, in_test(w, i)));
    added_is_named(w, i, run(w, i).0, w.tree[i].text, in_test(w, i));
}

proof fn named_is_counted(list: Seq<(Chars, bool)>, name: Chars, test: bool)
    requires
        list.contains((name, test)),
    ensures
        refs_in(list, name) != no_refs(),
    decreases list.len(),
{
    let k = choose|k: int| 0 <= k < list.len() && list[k] == (name, test);
    if k < list.len() - 1 {
        assert(list.drop_last()[k] == (name, test));
        named_is_counted(list.drop_last(), name, test);
    }
}

/// A dependency that a file of its manifest names, in code or in a test, is no orphan.
pub proof fn a_named_crate_is_no_orphan(p: PassView, k: int, w: Scan, i: int, name: Chars, test: bool, x: int)
    requires
        p.sides.len() <= usize::MAX,
        0 <= k < p.sides.len(),
        p.sides[k] == seen(w),
        reads_rust(w),
        names_crate(w, name, test),
        is_nearest(p.manifests, w.file.path@, i),
        forall|j: int| 0 <= j < p.manifests.len() && (#[trigger] p.manifests[j]).path == p.manifests[i].path ==> j == i,
        forall|m: int| 0 <= m < p.manifests[i].deps.len() ==> underscored((#[trigger] p.manifests[i].deps[m]).name, p.manifests[i].deps[m].ident),
        0 <= x < checked_upto(p, p.manifests.len() as int).orphans.len(),
        checked_upto(p, p.manifests.len() as int).orphans[x].manifest == p.manifests[i].path,
    ensures
        !underscored(checked_upto(p, p.manifests.len() as int).orphans[x].name, name),
{
    let n = p.manifests.len() as int;
    every_orphan_is_unreferred(p, n);
    walk_keeps_path(w, w.tree.len() as int);
    named_is_counted(p.sides[k].crate_refs, name, test);
    let o = checked_upto(p, n).orphans[x];
    assert(rightly_orphaned(p, o, n));
    if underscored(o.name, name) {
        let (a, b) = choose|a: int, b: int| {
            &&& 0 <= a < n
            &&& 0 <= b < p.manifests[a].deps.len()
            &&& o.name == (#[trigger] p.manifests[a].deps[b]).name
            &&& o.manifest == p.manifests[a].path
            &&& !p.manifests[a].deps[b].dev || p.cfg.check_dev_dependencies
            &&& !effect_matches(p, a, p.manifests[a].deps[b])
            &&& unreferred(p, a, p.manifests[a].deps[b].ident)
        };
        assert(a == i);
        assert(p.manifests[i].deps[b].ident =~= name);
        assert(p.sides[k].rust && is_nearest(p.manifests, p.sides[k].path, i));
    }
}

/// A name as code writes it: with `_` for `-`.
pub open spec fn underscored(name: Chars, ident: Chars) -> bool {
    &&& ident.len() == name.len()
    &&& forall|i: int| 0 <= i < name.len() ==> #[trigger] ident[i] == (if name[i] == '-' { '_' } else { name[i] })
}

proof fn step_keeps_path(t: Nodes, i: int, ctx: Ctx, s: SideView, set: SettingView)
    ensures
        node_step(t, i, ctx, s, set).0.path == s.path,
        node_step(t, i, ctx, s, set).0.rust == s.rust,
{
    let test = tested(t, i, set);
    if let Some(a) = child_of(t, i, "argument"@) {
        roots_keep_path(s, roots_of(t, a as int), test);
    }
    if let (Some(f), Some(args)) = (child_of(t, i, "function"@), child_of(t, i, "type_arguments"@)) {
        if let Some(format) = crate::declared::side::format_of(t[f as int].text) {
            types_keep_path(t, named_kids(t, args as int), format, s);
        }
    }
}

proof fn roots_keep_path(s: SideView, names: Seq<Chars>, test: bool)
    ensures
        roots_added(s, names, test).path == s.path,
        roots_added(s, names, test).rust == s.rust,
    decreases names.len(),
{
    if names.len() > 0 {
        roots_keep_path(s, names.drop_last(), test);
    }
}

proof fn types_keep_path(t: Nodes, kids: Seq<usize>, format: Chars, s: SideView)
    ensures
        types_added(t, kids, format, s).path == s.path,
        types_added(t, kids, format, s).rust == s.rust,
    decreases kids.len(),
{
    if kids.len() > 0 {
        types_keep_path(t, kids.drop_last(), format, s);
    }
}

proof fn walk_keeps_path(w: Scan, n: int)
    requires
        0 <= n <= w.tree.len(),
        reads_rust(w),
    ensures
        run(w, n).0.path == w.file.path@,
        run(w, n).0.rust,
        n == w.tree.len() ==> seen(w).path == w.file.path@ && seen(w).rust,
    decreases n,
{
    run_is_walk(w, n);
    if n > 0 {
        walk_keeps_path(w, n - 1);
        step_keeps_path(w.tree, n - 1, ctx_at(w.tree, n - 1, run(w, n - 1).1), run(w, n - 1).0, setting(w));
    }
}

// ---------- fields ----------

/// A file reads a field.
pub open spec fn reads_field(w: Scan, name: Chars, test: bool) -> bool {
    seen(w).field_reads.contains((name, test))
}

proof fn read_is_kept(w: Scan, i: int, name: Chars, test: bool)
    requires
        0 <= i < w.tree.len(),
        reads_rust(w),
        step(w, i).0.field_reads.contains((name, test)),
    ensures
        reads_field(w, name, test),
{
    step_is_kept(w, i);
    reveal(grows);
    let list = step(w, i).0.field_reads;
    let k = choose|k: int| 0 <= k < list.len() && list[k] == (name, test);
    assert(seen(w).field_reads[k] == list[k]);
}

/// `x.field` reads the field, and `x.field()` does not.
pub proof fn a_field_access_is_a_read(w: Scan, i: int, f: usize)
    requires
        tree_ok(w.tree),
        reads_rust(w),
        reads_at(w, i),
        w.tree[i].kind == "field_expression"@,
        child_of(w.tree, i, "field"@) == Some(f),
        w.tree[f as int].kind == "field_identifier"@,
        w.tree[i].parent is Some,
    ensures
        ({
            let p = w.tree[i].parent.unwrap() as int;
            let called = w.tree[p].kind == "call_expression"@ && child_of(w.tree, p, "function"@) == Some(i as usize);
            !called ==> reads_field(w, w.tree[f as int].text, in_test(w, i))
        }),
{
    side_kinds_differ();
    context_is_by_enclosing(w, i);
    let p = w.tree[i].parent.unwrap() as int;
    if !(w.tree[p].kind == "call_expression"@ && child_of(w.tree, p, "function"@) == Some(i as usize)) {
        let was = run(w, i).0.field_reads;
        assert(step(w, i).0.field_reads[was.len() as int] == (w.tree[f as int].text, in_test(w, i)));
        read_is_kept(w, i, w.tree[f as int].text, in_test(w, i));
    }
}

/// A struct pattern reads the field it names.
pub proof fn a_field_pattern_is_a_read(w: Scan, i: int, f: usize)
    requires
        tree_ok(w.tree),
        reads_rust(w),
        reads_at(w, i),
        w.tree[i].kind == "field_pattern"@,
        child_of(w.tree, i, "name"@) == Some(f),
    ensures
        reads_field(w, w.tree[f as int].text, in_test(w, i)),
{
    side_kinds_differ();
    context_is_by_enclosing(w, i);
    let was = run(w, i).0.field_reads;
    assert(step(w, i).0.field_reads[was.len() as int] == (w.tree[f as int].text, in_test(w, i)));
    read_is_kept(w, i, w.tree[f as int].text, in_test(w, i));
}

/// `x["key"]` reads the key.
pub proof fn an_index_by_a_text_is_a_read(w: Scan, i: int, lit: usize)
    requires
        tree_ok(w.tree),
        reads_rust(w),
        reads_at(w, i),
        w.tree[i].kind == "index_expression"@,
        named_at(w.tree, i, 1) == Some(lit),
        w.tree[lit as int].kind == "string_literal"@,
    ensures
        reads_field(w, crate::declared::side::between_quotes(w.tree[lit as int].text), in_test(w, i)),
{
    side_kinds_differ();
    context_is_by_enclosing(w, i);
    let name = crate::declared::side::between_quotes(w.tree[lit as int].text);
    let was = run(w, i).0.field_reads;
    assert(step(w, i).0.field_reads[was.len() as int] == (name, in_test(w, i)));
    read_is_kept(w, i, name, in_test(w, i));
}

/// In the tokens of a macro `.name` reads the field, unless it is called.
pub proof fn a_token_after_a_dot_is_a_read(w: Scan, i: int, d: usize)
    requires
        tree_ok(w.tree),
        reads_rust(w),
        reads_at(w, i),
        in_tokens(w.tree, i),
        w.tree[i].kind == "identifier"@,
        before_of(w.tree, i, true) == Some(d),
        w.tree[d as int].kind == "."@,
        after_of(w.tree, i, true) matches Some(n) ==> w.tree[n as int].kind != "token_tree"@,
    ensures
        reads_field(w, w.tree[i].text, in_test(w, i)),
{
    side_kinds_differ();
    context_is_by_enclosing(w, i);
    let was = run(w, i).0.field_reads;
    assert(step(w, i).0.field_reads[was.len() as int] == (w.tree[i].text, in_test(w, i)));
    read_is_kept(w, i, w.tree[i].text, in_test(w, i));
}

// ---------- features ----------

/// `feature = "name"` in the tokens of an attribute or a macro refers to the feature.
pub proof fn a_cfg_refers_to_its_feature(w: Scan, i: int, e: usize, lit: usize)
    requires
        tree_ok(w.tree),
        reads_rust(w),
        counts(w.tree, i),
        in_tokens(w.tree, i),
        w.tree[i].kind == "identifier"@,
        w.tree[i].text == "feature"@,
        after_of(w.tree, i, true) == Some(e),
        w.tree[e as int].kind == "="@,
        after_of(w.tree, e as int, true) == Some(lit),
        w.tree[lit as int].kind == "string_literal"@,
        crate::declared::side::between_quotes(w.tree[lit as int].text).len() > 0,
    ensures
        seen(w).feature_refs.contains(crate::declared::side::between_quotes(w.tree[lit as int].text)),
{
    side_kinds_differ();
    context_is_by_enclosing(w, i);
    step_is_kept(w, i);
    reveal(grows);
    let name = crate::declared::side::between_quotes(w.tree[lit as int].text);
    assert(named_feature(w.tree, i) == name);
    let list = step(w, i).0.feature_refs;
    let k = run(w, i).0.feature_refs.len() as int;
    assert(list[k] == name);
    assert(seen(w).feature_refs[k] == list[k]);
}

// ---------- attributes ----------

/// `#![allow(warnings)]` and `#![allow(unused)]` silence the lints of the file; the first one is
/// noted.
pub proof fn an_inner_allow_silences(w: Scan, i: int, tt: usize)
    requires
        tree_ok(w.tree),
        reads_rust(w),
        counts(w.tree, i),
        w.tree[i].kind == "inner_attribute_item"@,
        args_of(w.tree, i, "allow"@) == Some(tt),
        exists|k: int|
            0 <= k < w.tree[tt as int].children.len() && w.tree[#[trigger] w.tree[tt as int].children[k] as int].kind == "identifier"@ && (
            w.tree[w.tree[tt as int].children[k] as int].text == "warnings"@ || w.tree[w.tree[tt as int].children[k] as int].text
                == "unused"@),
    ensures
        seen(w).lint_silenced is Some,
{
    side_kinds_differ();
    context_is_by_enclosing(w, i);
    step_is_kept(w, i);
    reveal(grows);
    let kids = w.tree[tt as int].children;
    let k = choose|k: int|
        0 <= k < kids.len() && w.tree[#[trigger] kids[k] as int].kind == "identifier"@ && (w.tree[kids[k] as int].text == "warnings"@ || w.tree[kids[k] as int].text
            == "unused"@);
    ident_is_listed(w.tree, kids, k);
    assert(step(w, i).0.lint_silenced is Some);
}

proof fn ident_is_listed(t: Nodes, kids: Seq<usize>, k: int)
    requires
        0 <= k < kids.len(),
        t[kids[k] as int].kind == "identifier"@,
    ensures
        ident_texts(t, kids).contains(t[kids[k] as int].text),
    decreases kids.len(),
{
    let rest = ident_texts(t, kids.drop_last());
    let all = ident_texts(t, kids);
    if k == kids.len() - 1 {
        assert(all[rest.len() as int] == t[kids[k] as int].text);
    } else {
        ident_is_listed(t, kids.drop_last(), k);
        let x = choose|x: int| 0 <= x < rest.len() && rest[x] == t[kids[k] as int].text;
        assert(all[x] == rest[x]);
    }
}

// ---------- types that are read from files ----------

/// `let x: T = toml::from_str(..)` reads a `T` from a file.
pub proof fn a_typed_let_consumes_its_type(w: Scan, i: int, ty: usize, v: usize)
    requires
        tree_ok(w.tree),
        reads_rust(w),
        counts(w.tree, i),
        w.tree[i].kind == "let_declaration"@,
        child_of(w.tree, i, "type"@) == Some(ty),
        w.tree[ty as int].kind == "type_identifier"@,
        child_of(w.tree, i, "value"@) == Some(v),
        crate::declared::side::format_of(w.tree[v as int].text) is Some,
    ensures
        seen(w).consumed_types.contains((w.tree[ty as int].text, crate::declared::side::format_of(w.tree[v as int].text).unwrap())),
{
    side_kinds_differ();
    context_is_by_enclosing(w, i);
    step_is_kept(w, i);
    reveal(grows);
    let list = step(w, i).0.consumed_types;
    let k = run(w, i).0.consumed_types.len() as int;
    assert(list[k] == (w.tree[ty as int].text, crate::declared::side::format_of(w.tree[v as int].text).unwrap()));
    assert(seen(w).consumed_types[k] == list[k]);
}

/// `toml::from_str::<T>(..)` reads a `T` from a file.
pub proof fn a_named_type_is_consumed(w: Scan, i: int, f: usize, args: usize, k: int)
    requires
        tree_ok(w.tree),
        reads_rust(w),
        counts(w.tree, i),
        w.tree[i].kind == "generic_function"@,
        child_of(w.tree, i, "function"@) == Some(f),
        crate::declared::side::format_of(w.tree[f as int].text) is Some,
        child_of(w.tree, i, "type_arguments"@) == Some(args),
        0 <= k < w.tree[args as int].children.len(),
        w.tree[w.tree[args as int].children[k] as int].named,
        w.tree[w.tree[args as int].children[k] as int].kind == "type_identifier"@,
    ensures
        seen(w).consumed_types.contains(
            (
                w.tree[w.tree[args as int].children[k] as int].text,
                crate::declared::side::format_of(w.tree[f as int].text).unwrap(),
            ),
        ),
{
    side_kinds_differ();
    context_is_by_enclosing(w, i);
    step_is_kept(w, i);
    reveal(grows);
    let t = w.tree;
    let format = crate::declared::side::format_of(t[f as int].text).unwrap();
    the_named_children_are_kept(t, args as int);
    let kids = named_kids(t, args as int);
    assert(kids.contains(t[args as int].children[k]));
    let m = choose|m: int| 0 <= m < kids.len() && kids[m] == t[args as int].children[k];
    type_is_added(t, kids, format, run(w, i).0, m);
    let list = step(w, i).0.consumed_types;
    let want = (t[kids[m] as int].text, format);
    let x = choose|x: int| 0 <= x < list.len() && list[x] == want;
    assert(seen(w).consumed_types[x] == list[x]);
}

proof fn type_is_added(t: Nodes, kids: Seq<usize>, format: Chars, s: SideView, m: int)
    requires
        0 <= m < kids.len(),
        t[kids[m] as int].kind == "type_identifier"@,
    ensures
        types_added(t, kids, format, s).consumed_types.contains((t[kids[m] as int].text, format)),
    decreases kids.len(),
{
    let rest = types_added(t, kids.drop_last(), format, s).consumed_types;
    let all = types_added(t, kids, format, s).consumed_types;
    if m == kids.len() - 1 {
        assert(all[rest.len() as int] == (t[kids[m] as int].text, format));
    } else {
        type_is_added(t, kids.drop_last(), format, s, m);
        let x = choose|x: int| 0 <= x < rest.len() && rest[x] == (t[kids[m] as int].text, format);
        assert(all[x] == rest[x]);
    }
}

// ---------- structs that are read from files ----------

/// A struct with named fields that derives `Deserialize` is a struct of the file.
pub proof fn a_deserialized_struct_is_listed(w: Scan, i: int, n: usize, b: usize)
    requires
        tree_ok(w.tree),
        reads_rust(w),
        counts(w.tree, i),
        w.tree[i].kind == "struct_item"@,
        child_of(w.tree, i, "name"@) == Some(n),
        child_of(w.tree, i, "body"@) == Some(b),
        w.tree[b as int].kind == "field_declaration_list"@,
        attrs_over(w.tree, i).derives.contains("Deserialize"@),
    ensures
        exists|k: int|
            0 <= k < seen(w).structs.len() && (#[trigger] seen(w).structs[k]).name == w.tree[n as int].text && seen(w).structs[k].end_line
                == w.tree[i].end_line && seen(w).structs[k].in_test == in_test(w, i) && seen(w).structs[k].fields == fields_from(
                w.tree,
                named_kids(w.tree, b as int),
                0,
                Seq::empty(),
                Seq::empty(),
            ),
{
    side_kinds_differ();
    context_is_by_enclosing(w, i);
    step_is_kept(w, i);
    reveal(grows);
    let list = step(w, i).0.structs;
    let k = run(w, i).0.structs.len() as int;
    assert(list[k].name == w.tree[n as int].text);
    assert(seen(w).structs[k] == list[k]);
}

/// Nothing else is one.
pub proof fn every_listed_struct_is_deserialized(w: Scan, k: int)
    requires
        reads_rust(w),
        0 <= k < seen(w).structs.len(),
    ensures
        has_deserialized(w.tree, seen(w).structs[k].name),
{
    run_is_walk(w, w.tree.len() as int);
    structs_are_deserialized(w, w.tree.len() as int);
    assert(seen(w) == run(w, w.tree.len() as int).0);
    assert(list_is_deserialized(w.tree, seen(w).structs));
}

spec fn list_is_deserialized(t: Nodes, list: Seq<crate::declared::side::StructView>) -> bool {
    forall|k: int| 0 <= k < list.len() ==> has_deserialized(t, (#[trigger] list[k]).name)
}

/// Some struct of the name derives `Deserialize`.
pub open spec fn has_deserialized(t: Nodes, name: Chars) -> bool {
    exists|i: int| #[trigger] is_deserialized(t, i, name)
}

/// Node `i` is a struct of the name that derives `Deserialize`.
pub open spec fn is_deserialized(t: Nodes, i: int, name: Chars) -> bool {
    &&& 0 <= i < t.len()
    &&& t[i].kind == "struct_item"@
    &&& child_of(t, i, "name"@) matches Some(n) && t[n as int].text == name
    &&& attrs_over(t, i).derives.contains("Deserialize"@)
}

proof fn structs_are_deserialized(w: Scan, n: int)
    requires
        0 <= n <= w.tree.len(),
    ensures
        list_is_deserialized(w.tree, run(w, n).0.structs),
    decreases n,
{
    if n > 0 {
        structs_are_deserialized(w, n - 1);
        let was = run(w, n - 1).0.structs;
        let now = run(w, n).0.structs;
        structs_by_step(w.tree, n - 1, ctx_at(w.tree, n - 1, run(w, n - 1).1), run(w, n - 1).0, setting(w));
        assert forall|k: int| 0 <= k < now.len() implies has_deserialized(w.tree, (#[trigger] now[k]).name) by {
            if k < was.len() {
                assert(now[k] == was[k]);
            } else {
                assert(is_deserialized(w.tree, n - 1, now[k].name));
            }
        }
    }
}

proof fn structs_by_step(t: Nodes, i: int, ctx: Ctx, s: SideView, set: SettingView)
    requires
        0 <= i < t.len(),
    ensures
        ({
            let now = node_step(t, i, ctx, s, set).0.structs;
            ||| now == s.structs
            ||| now.len() == s.structs.len() + 1 && begins(s.structs, now) && is_deserialized(t, i, now.last().name)
        }),
{
    side_kinds_differ();
    let test = tested(t, i, set);
    if let Some(a) = child_of(t, i, "argument"@) {
        roots_keep_structs(s, roots_of(t, a as int), test);
    }
    if let (Some(f), Some(args)) = (child_of(t, i, "function"@), child_of(t, i, "type_arguments"@)) {
        if let Some(format) = crate::declared::side::format_of(t[f as int].text) {
            types_keep_structs(t, named_kids(t, args as int), format, s);
        }
    }
}

proof fn roots_keep_structs(s: SideView, names: Seq<Chars>, test: bool)
    ensures
        roots_added(s, names, test).structs == s.structs,
    decreases names.len(),
{
    if names.len() > 0 {
        roots_keep_structs(s, names.drop_last(), test);
    }
}

proof fn types_keep_structs(t: Nodes, kids: Seq<usize>, format: Chars, s: SideView)
    ensures
        types_added(t, kids, format, s).structs == s.structs,
    decreases kids.len(),
{
    if kids.len() > 0 {
        types_keep_structs(t, kids.drop_last(), format, s);
    }
}

/// What the attributes before a node derive: one that stands right before it, or before another
/// attribute that does.
pub proof fn a_derive_before_an_item_is_seen(t: Nodes, i: int, a: usize, attr: usize, tt: usize, k: int)
    requires
        0 <= i < t.len(),
        before_of(t, i, false) == Some(a),
        a < i,
        t[a as int].kind == "attribute_item"@,
        named_at(t, a as int, 0) == Some(attr),
        t[attr as int].kind == "attribute"@,
        named_at(t, attr as int, 0) matches Some(n) && t[n as int].text == "derive"@,
        child_of(t, attr as int, "arguments"@) == Some(tt),
        0 <= k < t[tt as int].children.len(),
        t[t[tt as int].children[k] as int].kind == "identifier"@,
    ensures
        attrs_over(t, i).derives.contains(t[t[tt as int].children[k] as int].text),
{
    reveal_strlit("derive");
    reveal_strlit("::");
    let n = named_at(t, attr as int, 0).unwrap();
    plain_is_its_leaf(t[n as int].text);
    let start = crate::declared::side::AttrsView { derives: Seq::empty(), serde: Seq::empty(), first: t[i].line };
    let next = crate::declared::side::attr_step(t, a as int, start);
    let texts = ident_texts(t, t[tt as int].children);
    ident_is_listed(t, t[tt as int].children, k);
    let x = choose|x: int| 0 <= x < texts.len() && texts[x] == t[t[tt as int].children[k] as int].text;
    assert(next.derives[x] == texts[x]);
    derives_grow(t, a as int, next);
    assert(attrs_over(t, i) == attrs_from(t, a as int, next));
    assert(attrs_over(t, i).derives[x] == texts[x]);
}

proof fn plain_is_its_leaf(s: Chars)
    requires
        s == "derive"@,
    ensures
        crate::text::after_last(s, "::"@) == s,
{
    reveal_strlit("derive");
    reveal_strlit("::");
    assert forall|k: int| 0 <= k < s.len() implies #[trigger] s[k] != ':' by {}
    no_colons(s, s.len() as int);
}

proof fn no_colons(s: Chars, i: int)
    requires
        forall|k: int| 0 <= k < s.len() ==> #[trigger] s[k] != ':',
    ensures
        crate::text::find_back(s, "::"@, i) is None,
    decreases i + 1,
{
    reveal_strlit("::");
    if i >= 0 {
        if crate::text::stands_at(s, "::"@, i) {
            assert(s.subrange(i, i + 2)[0] == s[i]);
            assert("::"@[0] == ':');
        }
        no_colons(s, i - 1);
    }
}

proof fn derives_grow(t: Nodes, i: int, acc: crate::declared::side::AttrsView)
    ensures
        begins(acc.derives, attrs_from(t, i, acc).derives),
    decreases i,
{
    if let Some(a) = before_of(t, i, false) {
        if a < i && crate::tree::is_kind(t, Some(a), "attribute_item"@) {
            let next = crate::declared::side::attr_step(t, a as int, acc);
            derives_grow(t, a as int, next);
            begins_on(acc.derives, next.derives, attrs_from(t, a as int, next).derives);
        }
    }
}

/// Every field that is declared is a field of the struct, in order, on its line.
pub proof fn every_declared_field_is_listed(t: Nodes, b: int, k: int, n: usize)
    requires
        0 <= k < t[b].children.len(),
        t[t[b].children[k] as int].named,
        t[t[b].children[k] as int].kind == "field_declaration"@,
        child_of(t, t[b].children[k] as int, "name"@) == Some(n),
    ensures
        exists|x: int|
            0 <= x < fields_from(t, named_kids(t, b), 0, Seq::empty(), Seq::empty()).len() && (#[trigger] fields_from(
                t,
                named_kids(t, b),
                0,
                Seq::empty(),
                Seq::empty(),
            )[x]).name == t[n as int].text && fields_from(t, named_kids(t, b), 0, Seq::empty(), Seq::empty())[x].line
                == t[t[b].children[k] as int].line,
{
    the_named_children_are_kept(t, b);
    let kids = named_kids(t, b);
    assert(kids.contains(t[b].children[k]));
    let m = choose|m: int| 0 <= m < kids.len() && kids[m] == t[b].children[k];
    field_is_listed(t, kids, 0, Seq::empty(), Seq::empty(), m, n);
}

proof fn field_is_listed(
    t: Nodes,
    kids: Seq<usize>,
    k: int,
    acc: Seq<crate::declared::side::FieldView>,
    pending: Seq<Chars>,
    m: int,
    n: usize,
)
    requires
        0 <= k <= m < kids.len(),
        t[kids[m] as int].kind == "field_declaration"@,
        child_of(t, kids[m] as int, "name"@) == Some(n),
    ensures
        exists|x: int|
            0 <= x < fields_from(t, kids, k, acc, pending).len() && (#[trigger] fields_from(t, kids, k, acc, pending)[x]).name == t[n as int].text
                && fields_from(t, kids, k, acc, pending)[x].line == t[kids[m] as int].line,
    decreases m - k,
{
    side_kinds_differ();
    let c = kids[k] as int;
    if k == m {
        let f = crate::declared::side::field_of(t, c, t[n as int].text, pending);
        fields_grow(t, kids, k + 1, acc.push(f), Seq::empty());
        assert(fields_from(t, kids, k, acc, pending)[acc.len() as int] == f);
    } else if t[c].kind == "attribute_item"@ {
        match args_of(t, c, "serde"@) {
            Some(tt) => field_is_listed(t, kids, k + 1, acc, pending.push(bare_args(t[tt as int].text)), m, n),
            None => field_is_listed(t, kids, k + 1, acc, pending, m, n),
        }
    } else if t[c].kind == "field_declaration"@ {
        match child_of(t, c, "name"@) {
            Some(x) => field_is_listed(
                t,
                kids,
                k + 1,
                acc.push(crate::declared::side::field_of(t, c, t[x as int].text, pending)),
                Seq::empty(),
                m,
                n,
            ),
            None => field_is_listed(t, kids, k + 1, acc, pending, m, n),
        }
    } else {
        field_is_listed(t, kids, k + 1, acc, pending, m, n);
    }
}

proof fn fields_grow(t: Nodes, kids: Seq<usize>, k: int, acc: Seq<crate::declared::side::FieldView>, pending: Seq<Chars>)
    ensures
        begins(acc, fields_from(t, kids, k, acc, pending)),
    decreases kids.len() - k,
{
    if 0 <= k < kids.len() {
        let c = kids[k] as int;
        if t[c].kind == "attribute_item"@ {
            match args_of(t, c, "serde"@) {
                Some(tt) => fields_grow(t, kids, k + 1, acc, pending.push(bare_args(t[tt as int].text))),
                None => fields_grow(t, kids, k + 1, acc, pending),
            }
        } else if t[c].kind == "field_declaration"@ {
            match child_of(t, c, "name"@) {
                Some(x) => {
                    let next = acc.push(crate::declared::side::field_of(t, c, t[x as int].text, pending));
                    fields_grow(t, kids, k + 1, next, Seq::empty());
                    begins_on(acc, next, fields_from(t, kids, k + 1, next, Seq::empty()));
                },
                None => fields_grow(t, kids, k + 1, acc, pending),
            }
        } else {
            fields_grow(t, kids, k + 1, acc, pending);
        }
    }
}

/// A field's type leads to a struct: by its own name, or as the last type argument of a type that
/// wraps or collects it.
pub proof fn a_wrapped_type_is_linked(t: Nodes, i: int, outer: usize, args: usize, k: int)
    requires
        t[i].kind == "generic_type"@,
        child_of(t, i, "type"@) == Some(outer),
        ({
            let s = t[outer as int].text;
            s == "Option"@ || s == "Box"@ || s == "Vec"@ || s == "Arc"@ || s == "Rc"@ || s == "BTreeMap"@ || s == "HashMap"@ || s == "IndexMap"@
        }),
        child_of(t, i, "type_arguments"@) == Some(args),
        0 <= k == named_kids(t, args as int).len() - 1,
        t[named_kids(t, args as int)[k] as int].kind == "type_identifier"@,
    ensures
        crate::declared::side::linked_type(t, i) == Some(t[named_kids(t, args as int)[k] as int].text),
{
    side_kinds_differ();
    reveal_strlit("Option");
    reveal_strlit("Box");
    reveal_strlit("Vec");
    reveal_strlit("Arc");
    reveal_strlit("Rc");
    reveal_strlit("BTreeMap");
    reveal_strlit("HashMap");
    reveal_strlit("IndexMap");
    reveal_strlit("::");
    let s = t[outer as int].text;
    assert forall|k: int| 0 <= k < s.len() implies #[trigger] s[k] != ':' by {}
    no_colons(s, s.len() as int);
    assert(crate::text::after_last(s, "::"@) == s);
}

/// A plain type leads to the struct of its name.
pub proof fn a_plain_type_is_linked(t: Nodes, i: int)
    requires
        t[i].kind == "type_identifier"@,
    ensures
        crate::declared::side::linked_type(t, i) == Some(t[i].text),
{
}

// ---------- literals ----------

/// A text that names a file of settings is noted: one without a slash that the pattern of such names
/// matches.
pub proof fn a_settings_file_is_noted(w: Scan, i: int)
    requires
        tree_ok(w.tree),
        reads_rust(w),
        counts(w.tree, i),
        w.tree[i].kind == "string_literal"@ || w.tree[i].kind == "raw_string_literal"@,
        !unquoted(w.tree[i].text).contains('/'),
        pattern_hit(config_names(), false, unquoted(w.tree[i].text)),
    ensures
        seen(w).config_literals.contains(unquoted(w.tree[i].text)),
{
    side_kinds_differ();
    context_is_by_enclosing(w, i);
    step_is_kept(w, i);
    reveal(grows);
    let list = step(w, i).0.config_literals;
    let k = run(w, i).0.config_literals.len() as int;
    assert(list[k] == unquoted(w.tree[i].text));
    assert(seen(w).config_literals[k] == list[k]);
}

/// A build script that names `CARGO_FEATURE_X` asks for the feature `X`.
pub proof fn a_build_script_asks_for_a_feature(w: Scan, i: int, name: Chars)
    requires
        tree_ok(w.tree),
        reads_rust(w),
        counts(w.tree, i),
        w.tree[i].kind == "string_literal"@ || w.tree[i].kind == "raw_string_literal"@,
        w.file.path@ == "build.rs"@ || ends(w.file.path@, "/build.rs"@),
        unquoted(w.tree[i].text) == "CARGO_FEATURE_"@ + name,
        name.len() > 0,
        crate::text::run_of(name, "_"@) == name,
    ensures
        seen(w).build_feature_env.contains(name),
{
    side_kinds_differ();
    context_is_by_enclosing(w, i);
    step_is_kept(w, i);
    reveal(grows);
    let inner = unquoted(w.tree[i].text);
    let p = "CARGO_FEATURE_"@;
    assert(inner.subrange(0, p.len() as int) =~= p);
    assert(inner.skip(p.len() as int) =~= name);
    let list = step(w, i).0.build_feature_env;
    let k = run(w, i).0.build_feature_env.len() as int;
    assert(list[k] == name);
    assert(seen(w).build_feature_env[k] == list[k]);
}

// ---------- reads that count for nothing ----------

/// Node `a` implements `Default`, `Serialize` or `Deserialize`.
pub open spec fn is_plumbing(t: Nodes, a: int) -> bool {
    &&& t[a].kind == "impl_item"@
    &&& child_of(t, a, "trait"@) matches Some(r) && (t[r as int].text == "Default"@ || t[r as int].text == "Serialize"@ || t[r as int].text
        == "Deserialize"@)
}

proof fn plain_trait_is_plumbing(t: Nodes, a: int)
    requires
        is_plumbing(t, a),
    ensures
        plumbing(t, a),
{
    reveal_strlit("Default");
    reveal_strlit("Serialize");
    reveal_strlit("Deserialize");
    reveal_strlit("::");
    let s = t[child_of(t, a, "trait"@)->0 as int].text;
    assert forall|k: int| 0 <= k < s.len() implies #[trigger] s[k] != ':' && s[k] != '<' by {}
    no_colons(s, s.len() as int);
    no_angle(s, 0);
    assert(crate::dead::walk::head_of(s, '<') == s);
    assert(crate::text::after_last(s, "::"@) == s);
}

proof fn no_angle(s: Chars, k: int)
    requires
        0 <= k,
        forall|j: int| 0 <= j < s.len() ==> #[trigger] s[j] != '<',
    ensures
        crate::text::first_of(s, '<', k) is None,
    decreases s.len() - k,
{
    if k < s.len() {
        no_angle(s, k + 1);
    }
}

#[verifier::spinoff_prover]
#[verifier::rlimit(60)]
proof fn plumbing_excludes(w: Scan, a: int, i: int)
    requires
        tree_ok(w.tree),
        0 <= i < w.tree.len(),
        encloses(w.tree, a, i),
        is_plumbing(w.tree, a),
    ensures
        ctx_of(w, i).off || ctx_of(w, i).excluded,
    decreases i,
{
    side_kinds_differ();
    assert(crate::tree::node_ok(w.tree, i));
    let p = w.tree[i].parent->0 as int;
    bases_are_steps(w, i, p);
    if p == a {
        plain_trait_is_plumbing(w.tree, a);
    } else {
        plumbing_excludes(w, a, p);
    }
}

proof fn reads_by_step(t: Nodes, i: int, ctx: Ctx, s: SideView, set: SettingView)
    ensures
        ({
            let now = node_step(t, i, ctx, s, set).0.field_reads;
            ||| now == s.field_reads
            ||| now.len() == s.field_reads.len() + 1 && begins(s.field_reads, now) && !ctx.off && !ctx.excluded
        }),
{
    let test = tested(t, i, set);
    if let Some(a) = child_of(t, i, "argument"@) {
        roots_keep_reads(s, roots_of(t, a as int), test);
    }
    if let (Some(f), Some(args)) = (child_of(t, i, "function"@), child_of(t, i, "type_arguments"@)) {
        if let Some(format) = crate::declared::side::format_of(t[f as int].text) {
            types_keep_reads(t, named_kids(t, args as int), format, s);
        }
    }
}

proof fn roots_keep_reads(s: SideView, names: Seq<Chars>, test: bool)
    ensures
        roots_added(s, names, test).field_reads == s.field_reads,
    decreases names.len(),
{
    if names.len() > 0 {
        roots_keep_reads(s, names.drop_last(), test);
    }
}

proof fn types_keep_reads(t: Nodes, kids: Seq<usize>, format: Chars, s: SideView)
    ensures
        types_added(t, kids, format, s).field_reads == s.field_reads,
    decreases kids.len(),
{
    if kids.len() > 0 {
        types_keep_reads(t, kids.drop_last(), format, s);
    }
}

/// Some node outside all plumbing.
pub open spec fn stands_outside(t: Nodes, i: int) -> bool {
    0 <= i < t.len() && forall|a: int| #[trigger] encloses(t, a, i) ==> !is_plumbing(t, a)
}

/// What `impl Default`, `impl Serialize` and `impl Deserialize` do with fields reads none: a file in
/// which every node but their own stands in one reads no field.
pub proof fn plumbing_reads_no_field(w: Scan)
    requires
        tree_ok(w.tree),
        reads_rust(w),
        forall|i: int| 0 <= i < w.tree.len() ==> !#[trigger] stands_outside(w.tree, i) || closed_in_step(w.tree, i),
    ensures
        seen(w).field_reads.len() == 0,
{
    run_is_walk(w, w.tree.len() as int);
    no_read_outside(w, w.tree.len() as int);
    assert(seen(w) == run(w, w.tree.len() as int).0);
}

/// A node that is no access to a field and no name among tokens.
pub open spec fn closed_in_step(t: Nodes, i: int) -> bool {
    let k = t[i].kind;
    k != "field_expression"@ && k != "field_pattern"@ && k != "index_expression"@ && k != "identifier"@
}

proof fn no_read_outside(w: Scan, n: int)
    requires
        tree_ok(w.tree),
        0 <= n <= w.tree.len(),
        forall|i: int| 0 <= i < w.tree.len() ==> !#[trigger] stands_outside(w.tree, i) || closed_in_step(w.tree, i),
    ensures
        run(w, n).0.field_reads.len() == 0,
    decreases n,
{
    if n > 0 {
        let i = n - 1;
        no_read_outside(w, i);
        reads_by_step(w.tree, i, ctx_of(w, i), run(w, i).0, setting(w));
        if stands_outside(w.tree, i) {
            quiet_step(w.tree, i, ctx_of(w, i), run(w, i).0, setting(w));
        } else {
            let a = choose|a: int| #[trigger] encloses(w.tree, a, i) && is_plumbing(w.tree, a);
            plumbing_excludes(w, a, i);
        }
    }
}

proof fn quiet_step(t: Nodes, i: int, ctx: Ctx, s: SideView, set: SettingView)
    requires
        closed_in_step(t, i),
    ensures
        node_step(t, i, ctx, s, set).0.field_reads == s.field_reads,
{
    let test = tested(t, i, set);
    if let Some(a) = child_of(t, i, "argument"@) {
        roots_keep_reads(s, roots_of(t, a as int), test);
    }
    if let (Some(f), Some(args)) = (child_of(t, i, "function"@), child_of(t, i, "type_arguments"@)) {
        if let Some(format) = crate::declared::side::format_of(t[f as int].text) {
            types_keep_reads(t, named_kids(t, args as int), format, s);
        }
    }
}

// ---------- formats ----------

/// A call that reads a value out of a text, bytes, a reader or another value has a format.
pub proof fn a_reading_call_has_a_format(expr: Chars, call: Chars, i: int)
    requires
        call == "from_str"@ || call == "from_slice"@ || call == "from_reader"@ || call == "from_value"@ || call == "try_into"@ || call == "try_from"@,
        crate::text::find_from(expr, call, 0) == Some(i),
        i + call.len() == expr.len() || expr[i + call.len()] == '(' || expr[i + call.len()] == ':',
    ensures
        crate::declared::side::format_of(expr) is Some,
{
    assert(crate::declared::side::format_by(expr, call) is Some);
}

/// A value that no such call reads has none.
pub proof fn a_plain_value_has_no_format(expr: Chars)
    requires
        !crate::text::holds(expr, "from_str"@),
        !crate::text::holds(expr, "from_slice"@),
        !crate::text::holds(expr, "from_reader"@),
        !crate::text::holds(expr, "from_value"@),
        !crate::text::holds(expr, "try_into"@),
        !crate::text::holds(expr, "try_from"@),
    ensures
        crate::declared::side::format_of(expr) is None,
{
}

} // verus!
