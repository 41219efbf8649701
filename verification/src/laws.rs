//! What paths, languages, functions, tests and files are, stated over texts and nodes.

use vstd::prelude::*;

use crate::config::Discover;
use crate::discover::{ascii_small, base_of, dir_of, kind_of, logic_counts, FileKind};
use crate::docs::strings_in;
use crate::lang::{language_of, Language};
use crate::paths::{above, dir_parts, read_from, resolved};
use crate::regions::{attribute_text, opens_region, region_of, regions_from, under_test, within, TestRegion};
use crate::text::{
    alphanumeric, ends, holds, last_of, lines_of, pieces, pieces_from, starts, trimmed, trimmed_end, trimmed_start, white, words_from, words_of, wordy,
    Chars,
};
use crate::tree::{before_of, child_of, tree_ok, Nodes};
use crate::units::{own_name, owner_from, tree_units, unit_name, units_in, UnitView};

verus! {

proof fn endings_differ()
    ensures
        "rs"@.len() == 2,
        "rs"@[0] == 'r',
        "py"@.len() == 2,
        "py"@[0] == 'p',
        "ts"@.len() == 2,
        "ts"@[0] == 't',
        "mts"@.len() == 3,
        "mts"@[0] == 'm',
        "mts"@[1] == 't',
        "cts"@.len() == 3,
        "cts"@[0] == 'c',
        "cts"@[1] == 't',
        "tsx"@.len() == 3,
        "tsx"@[0] == 't',
        "js"@.len() == 2,
        "js"@[0] == 'j',
        "jsx"@.len() == 3,
        "jsx"@[0] == 'j',
        "mjs"@.len() == 3,
        "mjs"@[0] == 'm',
        "mjs"@[1] == 'j',
        "cjs"@.len() == 3,
        "cjs"@[0] == 'c',
        "cjs"@[1] == 'j',
{
    reveal_strlit("rs");
    reveal_strlit("py");
    reveal_strlit("ts");
    reveal_strlit("mts");
    reveal_strlit("cts");
    reveal_strlit("tsx");
    reveal_strlit("js");
    reveal_strlit("jsx");
    reveal_strlit("mjs");
    reveal_strlit("cjs");
}

proof fn binding_kinds_differ()
    ensures
        "variable_declarator"@.len() == 19,
        "public_field_definition"@.len() == 23,
        "field_definition"@.len() == 16,
        "pair"@.len() == 4,
        "assignment_expression"@.len() == 21,
{
    reveal_strlit("variable_declarator");
    reveal_strlit("public_field_definition");
    reveal_strlit("field_definition");
    reveal_strlit("pair");
    reveal_strlit("assignment_expression");
}

proof fn owner_kinds_differ()
    ensures
        "impl_item"@.len() == 9,
        "trait_item"@.len() == 10,
        "trait_item"@[0] == 't',
        "class_definition"@.len() == 16,
        "class_definition"@[0] == 'c',
        "class_declaration"@.len() == 17,
        "class_declaration"@[0] == 'c',
        "abstract_class_declaration"@.len() == 26,
        "class"@.len() == 5,
        "class"@[0] == 'c',
        "declaration_list"@.len() == 16,
        "declaration_list"@[0] == 'd',
        "class_body"@.len() == 10,
        "class_body"@[0] == 'c',
        "block"@.len() == 5,
        "block"@[0] == 'b',
        "statement_block"@.len() == 15,
        "function_item"@.len() == 13,
        "function_definition"@.len() == 19,
        "function_definition"@[9] == 'd',
        "function_declaration"@.len() == 20,
        "generator_function_declaration"@.len() == 30,
        "method_definition"@.len() == 17,
        "method_definition"@[0] == 'm',
        "function_expression"@.len() == 19,
        "function_expression"@[9] == 'e',
        "generator_function"@.len() == 18,
        "arrow_function"@.len() == 14,
{
    reveal_strlit("impl_item");
    reveal_strlit("trait_item");
    reveal_strlit("class_definition");
    reveal_strlit("class_declaration");
    reveal_strlit("abstract_class_declaration");
    reveal_strlit("class");
    reveal_strlit("declaration_list");
    reveal_strlit("class_body");
    reveal_strlit("block");
    reveal_strlit("statement_block");
    reveal_strlit("function_item");
    reveal_strlit("function_definition");
    reveal_strlit("function_declaration");
    reveal_strlit("generator_function_declaration");
    reveal_strlit("method_definition");
    reveal_strlit("function_expression");
    reveal_strlit("generator_function");
    reveal_strlit("arrow_function");
}

proof fn mark_kinds_differ()
    ensures
        "attribute_item"@.len() == 14,
        "line_comment"@.len() == 12,
        "block_comment"@.len() == 13,
{
    reveal_strlit("attribute_item");
    reveal_strlit("line_comment");
    reveal_strlit("block_comment");
}

// ---------- paths ----------

/// A part of a path: a text without a slash.
pub open spec fn is_part(s: Chars) -> bool {
    forall|i: int| 0 <= i < s.len() ==> #[trigger] s[i] != '/'
}

pub(crate) proof fn last_slash(dir: Chars, base: Chars)
    requires
        is_part(base),
    ensures
        last_of(dir + "/"@ + base, '/') == Some(dir.len() as int),
    decreases base.len(),
{
    reveal_strlit("/");
    let s = dir + "/"@ + base;
    if base.len() == 0 {
        assert(s.last() == '/');
    } else {
        assert(s.last() == base.last());
        assert(base.last() == base[base.len() - 1]);
        assert(s.drop_last() =~= dir + "/"@ + base.drop_last());
        assert(is_part(base.drop_last()));
        last_slash(dir, base.drop_last());
    }
}

proof fn no_slash(s: Chars)
    requires
        is_part(s),
    ensures
        last_of(s, '/') is None,
    decreases s.len(),
{
    if s.len() > 0 {
        assert(s.last() == s[s.len() - 1]);
        assert(is_part(s.drop_last()));
        no_slash(s.drop_last());
    }
}

/// `dir/base` lies in `dir` under the name `base`; a path without a slash lies at the root under
/// itself.
pub proof fn a_path_is_its_directory_and_its_name(dir: Chars, base: Chars)
    requires
        is_part(base),
    ensures
        dir_of(dir + "/"@ + base) == dir,
        base_of(dir + "/"@ + base) == base,
        dir_of(base) == Seq::<char>::empty(),
        base_of(base) == base,
{
    reveal_strlit("/");
    let s = dir + "/"@ + base;
    last_slash(dir, base);
    no_slash(base);
    assert(s.take(dir.len() as int) =~= dir);
    assert(s.skip(dir.len() as int + 1) =~= base);
}

/// Above a directory stands it and what is above the directory it lies in; above a name at the root
/// stand it and the root.
pub proof fn what_is_above_ends_at_the_root(dir: Chars, base: Chars)
    requires
        is_part(base),
        base.len() > 0,
    ensures
        above(dir + "/"@ + base) == seq![dir + "/"@ + base] + above(dir),
        above(base) == seq![base, Seq::<char>::empty()],
        above(Seq::<char>::empty()) == seq![Seq::<char>::empty()],
{
    reveal_strlit("/");
    a_path_is_its_directory_and_its_name(dir, base);
    assert(above(Seq::<char>::empty()) =~= seq![Seq::<char>::empty()]);
    assert(above(base) =~= seq![base, Seq::<char>::empty()]);
}

proof fn pieces_shift(pre: Chars, s: Chars, from: int, i: int)
    requires
        0 <= from <= i,
        from <= s.len(),
    ensures
        pieces_from(pre + s, "/"@, pre.len() + from, pre.len() + i) == pieces_from(s, "/"@, from, i),
    decreases s.len() - i,
{
    let all = pre + s;
    let n = pre.len();
    if i >= s.len() {
        assert(all.subrange(n + from, all.len() as int) =~= s.subrange(from, s.len() as int));
    } else {
        assert(all[n + i] == s[i]);
        assert(all.subrange(n + from, n + i) =~= s.subrange(from, i));
        pieces_shift(pre, s, i + 1, i + 1);
        pieces_shift(pre, s, from, i + 1);
    }
}

proof fn slash_only(c: char)
    ensures
        "/"@.contains(c) <==> c == '/',
{
    reveal_strlit("/");
    assert("/"@[0] == '/');
}

proof fn pieces_after_part(a: Chars, b: Chars, i: int)
    requires
        is_part(a),
        0 <= i <= a.len(),
    ensures
        pieces_from(a + "/"@ + b, "/"@, 0, i) == seq![a] + pieces(b, "/"@),
    decreases a.len() - i,
{
    reveal_strlit("/");
    let s = a + "/"@ + b;
    if i < a.len() {
        slash_only(s[i]);
        assert(s[i] == a[i]);
        pieces_after_part(a, b, i + 1);
    } else {
        slash_only(s[i]);
        assert(s[i] == '/');
        assert(s.subrange(0, i) =~= a);
        assert(s =~= (a + "/"@) + b);
        pieces_shift(a + "/"@, b, 0, 0);
    }
}

proof fn pieces_of_part(a: Chars, i: int)
    requires
        is_part(a),
        0 <= i <= a.len(),
    ensures
        pieces_from(a, "/"@, 0, i) == seq![a],
    decreases a.len() - i,
{
    if i < a.len() {
        slash_only(a[i]);
        pieces_of_part(a, i + 1);
    } else {
        assert(a.subrange(0, a.len() as int) =~= a);
    }
}

proof fn pieces_before_part(d: Chars, b: Chars, from: int, i: int)
    requires
        is_part(b),
        0 <= from <= i <= d.len(),
    ensures
        pieces_from(d + "/"@ + b, "/"@, from, i) == pieces_from(d, "/"@, from, i).push(b),
    decreases d.len() - i,
{
    reveal_strlit("/");
    let s = d + "/"@ + b;
    if i < d.len() {
        assert(s[i] == d[i]);
        slash_only(s[i]);
        assert(s.subrange(from, i) =~= d.subrange(from, i));
        pieces_before_part(d, b, i + 1, i + 1);
        pieces_before_part(d, b, from, i + 1);
        let rest = pieces_from(d, "/"@, i + 1, i + 1);
        assert(seq![d.subrange(from, i)] + rest.push(b) =~= (seq![d.subrange(from, i)] + rest).push(b));
    } else {
        slash_only(s[i]);
        assert(s[i] == '/');
        assert(s.subrange(from, i) =~= d.subrange(from, d.len() as int));
        assert(s =~= (d + "/"@) + b);
        pieces_shift(d + "/"@, b, 0, 0);
        pieces_of_part(b, 0);
        assert(pieces_from(s, "/"@, i + 1, i + 1) == seq![b]);
        assert(seq![s.subrange(from, i)] + seq![b] =~= seq![d.subrange(from, d.len() as int)].push(b));
    }
}

proof fn resolved_from(parts: Seq<Chars>, k: int, out: Seq<Chars>)
    requires
        0 <= k <= parts.len(),
    ensures
        resolved(parts, k, out) == resolved(parts.skip(k), 0, out),
    decreases parts.len() - k,
{
    if k < parts.len() {
        let rest = parts.skip(k);
        assert(rest[0] == parts[k]);
        assert(rest.skip(1) =~= parts.skip(k + 1));
        let up = if out.len() == 0 { out } else { out.drop_last() };
        let p = parts[k];
        let next = if p.len() == 0 || p == "."@ {
            out
        } else if p == ".."@ {
            up
        } else {
            out.push(p)
        };
        resolved_from(parts, k + 1, next);
        resolved_from(rest, 1, next);
    } else {
        assert(parts.skip(k).len() == 0);
    }
}

/// A path read from a directory: `./p` is `p`, and `../p` read from `dir/name` is `p` read from `dir`.
pub proof fn dots_lead_up(dir: Chars, name: Chars, p: Chars)
    requires
        is_part(name),
    ensures
        read_from(dir, "./"@ + p) == read_from(dir, p),
        dir.len() > 0 ==> read_from(dir + "/"@ + name, "../"@ + p) == read_from(dir, p),
        name.len() > 0 ==> read_from(name, "../"@ + p) == read_from(Seq::empty(), p),
        read_from(Seq::empty(), "../"@ + p) == read_from(Seq::empty(), p),
{
    reveal_strlit("./");
    reveal_strlit("../");
    reveal_strlit("/");
    reveal_strlit(".");
    reveal_strlit("..");
    let rest = pieces(p, "/"@);
    assert("./"@ + p =~= "."@ + "/"@ + p);
    assert(is_part("."@));
    pieces_after_part("."@, p, 0);
    let a = pieces("./"@ + p, "/"@);
    assert(a == seq!["."@] + rest);
    assert(a.skip(1) =~= rest);
    resolved_from(a, 1, dir_parts(dir));
    assert("../"@ + p =~= ".."@ + "/"@ + p);
    assert(is_part(".."@));
    pieces_after_part(".."@, p, 0);
    let b = pieces("../"@ + p, "/"@);
    assert(b == seq![".."@] + rest);
    assert(b.skip(1) =~= rest);
    let deep = dir + "/"@ + name;
    pieces_before_part(dir, name, 0, 0);
    pieces_of_part(name, 0);
    if dir.len() > 0 {
        assert(dir_parts(deep).drop_last() =~= dir_parts(dir));
        resolved_from(b, 1, dir_parts(dir));
    }
    if name.len() > 0 {
        assert(dir_parts(name).drop_last() =~= Seq::<Chars>::empty());
    }
    resolved_from(b, 1, Seq::empty());
}

/// A name read from a directory is the file of that name in it.
pub proof fn a_name_is_read_in_its_directory(dir: Chars, name: Chars)
    requires
        is_part(name),
        name.len() > 0,
        name != "."@,
        name != ".."@,
    ensures
        read_from(Seq::empty(), name) == name,
        is_part(dir) && dir.len() > 0 ==> read_from(dir, name) == dir + "/"@ + name,
{
    pieces_of_part(name, 0);
    let one = seq![name];
    assert(resolved(one, 1, Seq::<Chars>::empty().push(name)) == Seq::<Chars>::empty().push(name));
    assert(crate::text::joined_from(Seq::<Chars>::empty().push(name), "/"@, name, 1) == name);
    if is_part(dir) && dir.len() > 0 {
        pieces_of_part(dir, 0);
        let two = seq![dir].push(name);
        assert(resolved(one, 1, two) == two);
        assert(crate::text::joined_from(two, "/"@, dir + "/"@ + name, 2) == dir + "/"@ + name);
        assert(crate::text::joined_from(two, "/"@, dir, 1) == dir + "/"@ + name);
    }
}

// ---------- languages ----------

/// Each language has its endings, and no other ending is read.
pub proof fn each_language_has_its_endings(ext: Chars)
    ensures
        language_of(ext) == Some(Language::Rust) <==> ext == "rs"@,
        language_of(ext) == Some(Language::Python) <==> ext == "py"@,
        language_of(ext) == Some(Language::TypeScript) <==> ext == "ts"@ || ext == "mts"@ || ext == "cts"@,
        language_of(ext) == Some(Language::Tsx) <==> ext == "tsx"@,
        language_of(ext) == Some(Language::JavaScript) <==> ext == "js"@ || ext == "jsx"@ || ext == "mjs"@ || ext == "cjs"@,
{
    endings_differ();
}

// ---------- functions ----------

/// A function of a language: the nodes that hold a body of their own and may have a name.
pub open spec fn is_function(lang: Language, kind: Chars) -> bool {
    if lang == Language::Rust {
        kind == "function_item"@
    } else if lang == Language::Python {
        kind == "function_definition"@
    } else {
        ||| kind == "function_declaration"@
        ||| kind == "generator_function_declaration"@
        ||| kind == "method_definition"@
        ||| kind == "function_expression"@
        ||| kind == "generator_function"@
        ||| kind == "arrow_function"@
    }
}

proof fn unit_is_listed(t: Nodes, lang: Language, i: int, n: int)
    requires
        0 <= i < n <= t.len() <= usize::MAX,
        t[i].named,
        is_function(lang, t[i].kind),
    ensures
        units_in(t, lang, n).contains(UnitView { node: i as usize, name: unit_name(t, i, lang) }),
    decreases n,
{
    let want = UnitView { node: i as usize, name: unit_name(t, i, lang) };
    let all = units_in(t, lang, n);
    let was = units_in(t, lang, n - 1);
    if i == n - 1 {
        assert(all[was.len() as int] == want);
    } else {
        unit_is_listed(t, lang, i, n - 1);
        let k = choose|k: int| 0 <= k < was.len() && was[k] == want;
        assert(all[k] == want);
    }
}

proof fn listed_is_unit(t: Nodes, lang: Language, n: int, k: int)
    requires
        0 <= n <= t.len() <= usize::MAX,
        0 <= k < units_in(t, lang, n).len(),
    ensures
        units_in(t, lang, n)[k].node < n,
        t[units_in(t, lang, n)[k].node as int].named,
        is_function(lang, t[units_in(t, lang, n)[k].node as int].kind),
    decreases n,
{
    if n > 0 && k < units_in(t, lang, n - 1).len() {
        listed_is_unit(t, lang, n - 1, k);
    }
}

/// Every function is a unit, and nothing else is.
pub proof fn every_function_is_a_unit(t: Nodes, lang: Language)
    requires
        t.len() <= usize::MAX,
    ensures
        forall|i: int|
            0 <= i < t.len() && (#[trigger] t[i]).named && is_function(lang, t[i].kind) ==> tree_units(t, lang).contains(
                UnitView { node: i as usize, name: unit_name(t, i, lang) },
            ),
        forall|k: int|
            0 <= k < tree_units(t, lang).len() ==> (#[trigger] tree_units(t, lang)[k]).node < t.len() && t[tree_units(t, lang)[k].node as int].named
                && is_function(lang, t[tree_units(t, lang)[k].node as int].kind),
{
    assert forall|i: int| 0 <= i < t.len() && (#[trigger] t[i]).named && is_function(lang, t[i].kind) implies tree_units(t, lang).contains(
        UnitView { node: i as usize, name: unit_name(t, i, lang) },
    ) by {
        unit_is_listed(t, lang, i, t.len() as int);
    }
    assert forall|k: int| 0 <= k < tree_units(t, lang).len() implies (#[trigger] tree_units(t, lang)[k]).node < t.len()
        && t[tree_units(t, lang)[k].node as int].named && is_function(lang, t[tree_units(t, lang)[k].node as int].kind) by {
        listed_is_unit(t, lang, t.len() as int, k);
    }
}

/// A function is called by its own name; one without, by what it is bound to: a variable, a field, a
/// property or an assignment.
pub proof fn a_function_has_its_name(t: Nodes, n: int, c: usize)
    requires
        0 <= n < t.len(),
        child_of(t, n, "name"@) == Some(c) || child_of(t, n, "name"@) is None && (t[n].parent matches Some(p) && (if t[p as int].kind
            == "variable_declarator"@ || t[p as int].kind == "public_field_definition"@ {
            child_of(t, p as int, "name"@) == Some(c)
        } else if t[p as int].kind == "field_definition"@ {
            child_of(t, p as int, "property"@) == Some(c)
        } else if t[p as int].kind == "pair"@ {
            child_of(t, p as int, "key"@) == Some(c)
        } else {
            t[p as int].kind == "assignment_expression"@ && child_of(t, p as int, "left"@) == Some(c)
        })),
    ensures
        own_name(t, n) == t[c as int].text,
{
    binding_kinds_differ();
}

/// A node that owns the functions in it, and what it is called.
pub open spec fn owns(t: Nodes, p: int, name: Chars) -> bool {
    ||| t[p].kind == "impl_item"@ && (child_of(t, p, "type"@) matches Some(c) && head_is(t[c as int].text, name))
    ||| (t[p].kind == "trait_item"@ || t[p].kind == "class_definition"@ || t[p].kind == "class_declaration"@ || t[p].kind
        == "abstract_class_declaration"@ || t[p].kind == "class"@) && (child_of(t, p, "name"@) matches Some(c) && t[c as int].text == name)
}

/// A type without its parameters: what stands before the first `<`.
pub open spec fn head_is(s: Chars, head: Chars) -> bool {
    &&& forall|i: int| 0 <= i < head.len() ==> #[trigger] head[i] != '<'
    &&& s == head || head.len() < s.len() && s[head.len() as int] == '<' && s.take(head.len() as int) == head
}

proof fn head_is_plain(s: Chars, head: Chars, k: int)
    requires
        head_is(s, head),
        0 <= k <= head.len(),
    ensures
        crate::text::first_of(s, '<', k) == (if s == head { None } else { Some(head.len() as int) }),
    decreases head.len() - k,
{
    if k < head.len() {
        assert(s[k] == head[k]) by {
            if s != head {
                assert(s.take(head.len() as int)[k] == s[k]);
            }
        }
        head_is_plain(s, head, k + 1);
    }
}

/// A method of a class, a trait or an `impl` is `Owner.name`.
pub proof fn a_method_has_its_owner(t: Nodes, lang: Language, n: int, name: Chars, body: usize, p: usize)
    requires
        0 <= n < t.len(),
        t[n].parent == Some(body),
        t[body as int].kind == "declaration_list"@ || t[body as int].kind == "class_body"@ || t[body as int].kind == "block"@,
        t[body as int].parent == Some(p),
        p < body < n,
        owns(t, p as int, name),
    ensures
        unit_name(t, n, lang) == name + "."@ + own_name(t, n),
{
    owner_kinds_differ();
    if t[p as int].kind == "impl_item"@ {
        let c = child_of(t, p as int, "type"@).unwrap();
        head_is_plain(t[c as int].text, name, 0);
    }
    assert(owner_from(t, Some(p), lang) == Some(name));
    assert(owner_from(t, Some(body), lang) == owner_from(t, Some(p), lang));
}

/// A function in another function has no owner.
pub proof fn an_inner_function_has_no_owner(t: Nodes, lang: Language, n: int, body: usize, p: usize)
    requires
        0 <= n < t.len(),
        t[n].parent == Some(body),
        t[body as int].kind == "statement_block"@ || t[body as int].kind == "block"@,
        t[body as int].parent == Some(p),
        p < body < n,
        is_function(lang, t[p as int].kind),
    ensures
        unit_name(t, n, lang) == own_name(t, n),
{
    owner_kinds_differ();
    assert(owner_from(t, Some(p), lang) is None);
    assert(owner_from(t, Some(body), lang) == owner_from(t, Some(p), lang));
}

// ---------- tests ----------

/// An item is a test where an attribute `test` or `cfg(test)` stands before it, with nothing but
/// attributes and comments between; not where anything else stands before it, or nothing.
pub proof fn a_test_is_marked_by_an_attribute(t: Nodes, i: int)
    requires
        0 <= i < t.len(),
    ensures
        before_of(t, i, false) is None ==> !under_test(t, i),
        before_of(t, i, false) matches Some(p) ==> (p < i ==> ({
            let k = t[p as int].kind;
            let text = attribute_text(t, p as int);
            &&& k == "attribute_item"@ && (text == "test"@ || text == "cfg(test)"@) ==> under_test(t, i)
            &&& k == "attribute_item"@ && text != "test"@ && text != "cfg(test)"@ ==> under_test(t, i) == under_test(t, p as int)
            &&& k == "line_comment"@ || k == "block_comment"@ ==> under_test(t, i) == under_test(t, p as int)
            &&& k != "attribute_item"@ && k != "line_comment"@ && k != "block_comment"@ ==> !under_test(t, i)
        })),
{
    mark_kinds_differ();
}

/// A node that is a test of its own: a marked one that is no attribute or comment.
pub open spec fn is_test(t: Nodes, i: int) -> bool {
    &&& t[i].named
    &&& t[i].kind != "attribute_item"@
    &&& t[i].kind != "line_comment"@
    &&& t[i].kind != "block_comment"@
    &&& under_test(t, i)
}

proof fn test_is_found(t: Nodes, x: int, i: int)
    requires
        tree_ok(t),
        0 <= x <= i < t.len(),
        is_test(t, i),
        forall|a: int| x <= a < i && is_test(t, a) ==> (#[trigger] t[a]).after <= i,
    ensures
        regions_from(t, x).contains(region_of(t, i)),
    decreases i - x,
{
    assert(crate::tree::node_ok(t, x));
    let all = regions_from(t, x);
    if x == i {
        assert(all[0] == region_of(t, i));
    } else if is_test(t, x) {
        let rest = regions_from(t, t[x].after as int);
        test_is_found(t, t[x].after as int, i);
        let k = choose|k: int| 0 <= k < rest.len() && rest[k] == region_of(t, i);
        assert(all[k + 1] == rest[k]);
    } else {
        test_is_found(t, x + 1, i);
    }
}

/// Every byte of a test that is in no other test is within the tests, and every region is that of a
/// test.
pub proof fn a_test_is_a_region(t: Nodes, i: int, byte: usize)
    requires
        tree_ok(t),
        0 <= i < t.len(),
        is_test(t, i),
        forall|a: int| 0 <= a < i && is_test(t, a) ==> (#[trigger] t[a]).after <= i,
        t[i].start <= byte < t[i].end,
    ensures
        within(regions_from(t, 0), byte),
        regions_from(t, 0).contains(
            (TestRegion { start: t[i].start, end: t[i].end, start_line: t[i].line, end_line: t[i].end_line }),
        ),
{
    test_is_found(t, 0, i);
    let all = regions_from(t, 0);
    let k = choose|k: int| 0 <= k < all.len() && all[k] == region_of(t, i);
    assert(all[k].start <= byte < all[k].end);
}

proof fn regions_are_tests(t: Nodes, x: int, k: int)
    requires
        0 <= x,
        0 <= k < regions_from(t, x).len(),
    ensures
        exists|i: int| 0 <= i < t.len() && #[trigger] is_test(t, i) && regions_from(t, x)[k] == region_of(t, i),
    decreases t.len() - x,
{
    let all = regions_from(t, x);
    if opens_region(t, x) && x < t[x].after <= t.len() {
        if k == 0 {
            assert(is_test(t, x));
        } else {
            assert(all[k] == regions_from(t, t[x].after as int)[k - 1]);
            regions_are_tests(t, t[x].after as int, k - 1);
        }
    } else {
        regions_are_tests(t, x + 1, k);
    }
}

/// Outside of every test nothing is within the tests.
pub proof fn only_tests_are_regions(t: Nodes, byte: usize)
    requires
        within(regions_from(t, 0), byte),
    ensures
        exists|i: int| 0 <= i < t.len() && #[trigger] is_test(t, i) && t[i].start <= byte < t[i].end,
{
    let all = regions_from(t, 0);
    let k = choose|k: int| 0 <= k < all.len() && (#[trigger] all[k]).start <= byte < all[k].end;
    regions_are_tests(t, 0, k);
    let i = choose|i: int| 0 <= i < t.len() && #[trigger] is_test(t, i) && all[k] == region_of(t, i);
    assert(t[i].start <= byte < t[i].end);
}

// ---------- files ----------

/// A directory of a path, not its file, bears one of the names.
pub open spec fn dir_among(rel: Chars, names: Seq<Chars>) -> bool {
    exists|k: int| 0 <= k < pieces(rel, "/"@).len() - 1 && names.contains(#[trigger] pieces(rel, "/"@)[k])
}

/// One of the first lines of a file that the settings look at holds a marker, in whatever case.
pub open spec fn says_generated(content: Chars, cfg: Discover) -> bool {
    exists|k: int, m: int|
        0 <= k < lines_of(content).len() && k < cfg.generated_marker_lines && 0 <= m < cfg.generated_markers.deep_view().len() && holds(
            ascii_small(#[trigger] lines_of(content)[k]),
            #[trigger] cfg.generated_markers.deep_view()[m],
        )
}

/// A vendored file is one in a vendor directory or a minified script, whatever else it is.
pub proof fn a_vendored_file_is_vendored(rel: Chars, content: Chars, lines: usize, sparse: bool, cfg: Discover)
    ensures
        kind_of(rel, content, lines, sparse, cfg) == FileKind::Vendored <==> dir_among(rel, cfg.vendor_dirs.deep_view()) || ends(
            ascii_small(pieces(rel, "/"@).last()),
            ".min.js"@,
        ),
{
}

/// A generated file is any other one that is a declaration file, lies in a directory of generated
/// files or says so in its first lines.
pub proof fn a_generated_file_is_generated(rel: Chars, content: Chars, lines: usize, sparse: bool, cfg: Discover)
    ensures
        kind_of(rel, content, lines, sparse, cfg) == FileKind::Generated <==> kind_of(rel, content, lines, sparse, cfg) != FileKind::Vendored && (
        ends(ascii_small(pieces(rel, "/"@).last()), ".d.ts"@) || dir_among(rel, cfg.generated_dirs.deep_view()) || says_generated(content, cfg)),
{
    if says_generated(content, cfg) {
        let (k, m) = choose|k: int, m: int|
            0 <= k < lines_of(content).len() && k < cfg.generated_marker_lines && 0 <= m < cfg.generated_markers.deep_view().len() && holds(
                ascii_small(#[trigger] lines_of(content)[k]),
                #[trigger] cfg.generated_markers.deep_view()[m],
            );
        assert(crate::discover::holds_any(ascii_small(lines_of(content)[k]), cfg.generated_markers.deep_view()));
    }
    if crate::discover::generated(content, cfg) {
        let k = choose|k: int|
            0 <= k < lines_of(content).len() && k < cfg.generated_marker_lines && crate::discover::holds_any(
                ascii_small(#[trigger] lines_of(content)[k]),
                cfg.generated_markers.deep_view(),
            );
        let list = cfg.generated_markers.deep_view();
        let m = choose|m: int| 0 <= m < list.len() && holds(ascii_small(lines_of(content)[k]), #[trigger] list[m]);
        assert(holds(ascii_small(lines_of(content)[k]), cfg.generated_markers.deep_view()[m]));
    }
}

/// The name of a file without its last ending.
pub open spec fn stem_is(file: Chars, stem: Chars) -> bool {
    ||| stem == file && forall|i: int| 0 <= i < file.len() ==> #[trigger] file[i] != '.'
    ||| exists|ext: Chars| #[trigger] dotted(stem, ext) == file && forall|i: int| 0 <= i < ext.len() ==> #[trigger] ext[i] != '.'
}

/// A stem with an ending.
pub open spec fn dotted(stem: Chars, ext: Chars) -> Chars {
    stem.push('.') + ext
}

pub(crate) proof fn last_dot(stem: Chars, ext: Chars)
    requires
        forall|i: int| 0 <= i < ext.len() ==> #[trigger] ext[i] != '.',
    ensures
        last_of(dotted(stem, ext), '.') == Some(stem.len() as int),
    decreases ext.len(),
{
    let s = dotted(stem, ext);
    if ext.len() == 0 {
        assert(s.last() == '.');
    } else {
        assert(s.last() == ext[ext.len() - 1]);
        assert(s.drop_last() =~= dotted(stem, ext.drop_last()));
        last_dot(stem, ext.drop_last());
    }
}

proof fn no_dot(s: Chars)
    requires
        forall|i: int| 0 <= i < s.len() ==> #[trigger] s[i] != '.',
    ensures
        last_of(s, '.') is None,
    decreases s.len(),
{
    if s.len() > 0 {
        assert(s.last() == s[s.len() - 1]);
        no_dot(s.drop_last());
    }
}

/// A test file is any other one in a test directory, or one whose stem starts, ends or is as a test's.
pub proof fn a_test_file_is_a_test(rel: Chars, content: Chars, lines: usize, sparse: bool, cfg: Discover, stem: Chars)
    requires
        stem_is(pieces(rel, "/"@).last(), stem),
    ensures
        kind_of(rel, content, lines, sparse, cfg) == FileKind::Test <==> kind_of(rel, content, lines, sparse, cfg) != FileKind::Vendored && kind_of(
            rel,
            content,
            lines,
            sparse,
            cfg,
        ) != FileKind::Generated && (dir_among(rel, cfg.test_dirs.deep_view()) || (exists|k: int|
            0 <= k < cfg.test_stem_prefixes.deep_view().len() && starts(stem, #[trigger] cfg.test_stem_prefixes.deep_view()[k])) || (exists|k: int|
            0 <= k < cfg.test_stem_suffixes.deep_view().len() && ends(stem, #[trigger] cfg.test_stem_suffixes.deep_view()[k]))
            || cfg.test_stems.deep_view().contains(stem)),
{
    stem_is_its_own(pieces(rel, "/"@).last(), stem);
}

proof fn stem_is_its_own(file: Chars, stem: Chars)
    requires
        stem_is(file, stem),
    ensures
        stem == match crate::text::around_last(file, '.') {
            Some((s, _)) => s,
            None => file,
        },
{
    if stem == file && forall|i: int| 0 <= i < file.len() ==> #[trigger] file[i] != '.' {
        no_dot(file);
    } else {
        let ext = choose|ext: Chars| #[trigger] dotted(stem, ext) == file && forall|i: int| 0 <= i < ext.len() ==> #[trigger] ext[i] != '.';
        last_dot(stem, ext);
        assert(file.take(stem.len() as int) =~= stem);
    }
}

/// A data file is any other one in a data directory, whose stem holds a word of data, or that is long
/// and has little logic. What is left is source.
pub proof fn a_data_file_is_data(rel: Chars, content: Chars, lines: usize, sparse: bool, cfg: Discover, stem: Chars)
    requires
        stem_is(pieces(rel, "/"@).last(), stem),
    ensures
        ({
            let r = kind_of(rel, content, lines, sparse, cfg);
            let data = dir_among(rel, cfg.data_dirs.deep_view()) || (exists|k: int|
                0 <= k < cfg.data_stem_contains.deep_view().len() && holds(stem, #[trigger] cfg.data_stem_contains.deep_view()[k])) || (lines
                >= cfg.data_min_lines && sparse);
            &&& r == FileKind::Data <==> r != FileKind::Vendored && r != FileKind::Generated && r != FileKind::Test && data
            &&& r == FileKind::Source <==> r != FileKind::Vendored && r != FileKind::Generated && r != FileKind::Test && !data
        }),
{
    stem_is_its_own(pieces(rel, "/"@).last(), stem);
}

/// A word that says that a line decides or calls for something.
pub open spec fn logic_word(w: Chars) -> bool {
    ||| w == "if "@
    ||| w == "if("@
    ||| w == "for "@
    ||| w == "for("@
    ||| w == "while "@
    ||| w == "while("@
    ||| w == "return"@
    ||| w == "def "@
    ||| w == "fn "@
    ||| w == "function"@
    ||| w == "=>"@
    ||| w == "class "@
    ||| w == "match "@
    ||| w == "switch"@
    ||| w == "try"@
    ||| w == "elif "@
    ||| w == "else"@
    ||| w == "yield"@
    ||| w == "await "@
    ||| w == "impl "@
}

/// A blank or commented line does not count; any other does, and it counts as logic exactly where
/// such a word stands in it.
pub proof fn a_line_counts_by_its_words(all: Seq<Chars>, line: Chars)
    ensures
        ({
            let t = trimmed_start(line);
            let (logic, total) = logic_counts(all);
            let (logic2, total2) = logic_counts(all.push(line));
            let quiet = t.len() == 0 || starts(t, "//"@) || starts(t, "#"@) || starts(t, "*"@);
            &&& quiet ==> logic2 == logic && total2 == total
            &&& !quiet ==> total2 == total + 1
            &&& !quiet && (exists|w: Chars| #[trigger] logic_word(w) && holds(t, w)) ==> logic2 == logic + 1
            &&& !quiet && (forall|w: Chars| #[trigger] logic_word(w) ==> !holds(t, w)) ==> logic2 == logic
        }),
{
    let more = all.push(line);
    let t = trimmed_start(line);
    assert(more.drop_last() =~= all);
    assert(more.last() == line);
    if crate::discover::marks_logic(t) {
        let w = if holds(t, "if "@) { "if "@ } else if holds(t, "if("@) { "if("@ } else if holds(t, "for "@) { "for "@ } else if holds(t, "for("@) { "for("@ }
            else if holds(t, "while "@) { "while "@ } else if holds(t, "while("@) { "while("@ } else if holds(t, "return"@) { "return"@ }
            else if holds(t, "def "@) { "def "@ } else if holds(t, "fn "@) { "fn "@ } else if holds(t, "function"@) { "function"@ }
            else if holds(t, "=>"@) { "=>"@ } else if holds(t, "class "@) { "class "@ } else if holds(t, "match "@) { "match "@ }
            else if holds(t, "switch"@) { "switch"@ } else if holds(t, "try"@) { "try"@ } else if holds(t, "elif "@) { "elif "@ }
            else if holds(t, "else"@) { "else"@ } else if holds(t, "yield"@) { "yield"@ } else if holds(t, "await "@) { "await "@ } else { "impl "@ };
        assert(logic_word(w) && holds(t, w));
    }
}

// ---------- documents ----------

/// The strings of a list are the texts of its parts that are strings.
pub proof fn the_strings_of_a_list_are_its_strings(t: Nodes, kids: Seq<usize>, s: Chars)
    ensures
        strings_in(t, kids).contains(s) <==> exists|k: int|
            0 <= k < kids.len() && t[#[trigger] kids[k] as int].kind == "string"@ && t[kids[k] as int].text == s,
    decreases kids.len(),
{
    if kids.len() > 0 {
        let less = kids.drop_last();
        the_strings_of_a_list_are_its_strings(t, less, s);
        let rest = strings_in(t, less);
        let all = strings_in(t, kids);
        let n = kids.len() - 1;
        if rest.contains(s) {
            let x = choose|x: int| 0 <= x < rest.len() && rest[x] == s;
            assert(all[x] == s);
            let k = choose|k: int| 0 <= k < less.len() && t[#[trigger] less[k] as int].kind == "string"@ && t[less[k] as int].text == s;
            assert(kids[k] == less[k]);
        }
        if t[kids[n] as int].kind == "string"@ && t[kids[n] as int].text == s {
            assert(all[rest.len() as int] == s);
        }
        if all.contains(s) && !rest.contains(s) {
            let x = choose|x: int| 0 <= x < all.len() && all[x] == s;
            if x < rest.len() {
                assert(rest[x] == s);
            }
            assert(t[kids[n] as int].kind == "string"@);
        }
        if exists|k: int| 0 <= k < kids.len() && t[#[trigger] kids[k] as int].kind == "string"@ && t[kids[k] as int].text == s {
            let k = choose|k: int| 0 <= k < kids.len() && t[#[trigger] kids[k] as int].kind == "string"@ && t[kids[k] as int].text == s;
            if k < n {
                assert(less[k] == kids[k]);
            }
        }
    }
}

// ---------- texts ----------

proof fn start_is_trimmed(s: Chars)
    ensures
        ({
            let r = trimmed_start(s);
            &&& r.len() <= s.len()
            &&& r == s.skip(s.len() - r.len())
            &&& r.len() > 0 ==> !white(r[0])
            &&& forall|i: int| 0 <= i < s.len() - r.len() ==> white(#[trigger] s[i])
        }),
    decreases s.len(),
{
    if s.len() > 0 && white(s[0]) {
        let t = s.skip(1);
        start_is_trimmed(t);
        let r = trimmed_start(t);
        assert(s.skip(s.len() - r.len()) =~= t.skip(t.len() - r.len()));
        assert forall|i: int| 0 <= i < s.len() - r.len() implies white(#[trigger] s[i]) by {
            if i > 0 {
                assert(t[i - 1] == s[i]);
            }
        }
    } else {
        assert(s.skip(0) =~= s);
    }
}

proof fn end_is_trimmed(s: Chars)
    ensures
        ({
            let r = trimmed_end(s);
            &&& r.len() <= s.len()
            &&& r == s.take(r.len() as int)
            &&& r.len() > 0 ==> !white(r.last())
            &&& forall|i: int| r.len() <= i < s.len() ==> white(#[trigger] s[i])
        }),
    decreases s.len(),
{
    if s.len() > 0 && white(s.last()) {
        let t = s.drop_last();
        end_is_trimmed(t);
        let r = trimmed_end(t);
        assert(s.take(r.len() as int) =~= t.take(r.len() as int));
        assert forall|i: int| r.len() <= i < s.len() implies white(#[trigger] s[i]) by {
            if i < t.len() {
                assert(t[i] == s[i]);
            } else {
                assert(s[i] == s.last());
            }
        }
    } else {
        assert(s.take(s.len() as int) =~= s);
    }
}

/// A trimmed text neither starts nor ends with a space, and nothing but spaces was taken off.
pub proof fn only_spaces_are_trimmed(s: Chars)
    ensures
        ({
            let r = trimmed(s);
            &&& r.len() > 0 ==> !white(r[0]) && !white(r.last())
            &&& exists|a: int, b: int| {
                &&& 0 <= a <= b <= s.len()
                &&& r == #[trigger] s.subrange(a, b)
                &&& forall|i: int| 0 <= i < a || b <= i < s.len() ==> white(#[trigger] s[i])
            }
        }),
{
    let m = trimmed_start(s);
    let r = trimmed(s);
    start_is_trimmed(s);
    end_is_trimmed(m);
    let a = s.len() - m.len();
    let b = a + r.len();
    assert(r =~= s.subrange(a, b));
    if r.len() > 0 {
        assert(r[0] == m[0]);
    }
    assert forall|i: int| 0 <= i < a || b <= i < s.len() implies white(#[trigger] s[i]) by {
        if i >= b {
            assert(m[i - a] == s[i]);
        }
    }
}

/// Words of a list: none is empty, and none has anything but letters, digits and `_`.
spec fn are_words(list: Seq<Chars>) -> bool {
    forall|k: int| 0 <= k < list.len() ==> is_word(#[trigger] list[k])
}

/// A word: letters, digits and `_`.
pub open spec fn is_word(w: Chars) -> bool {
    w.len() > 0 && forall|i: int| 0 <= i < w.len() ==> alphanumeric(#[trigger] w[i]) || w[i] == '_'
}

proof fn words_are_words(s: Chars, from: int, i: int)
    requires
        0 <= from <= i,
        forall|j: int| from <= j < i && j < s.len() ==> alphanumeric(#[trigger] s[j]) || s[j] == '_',
    ensures
        are_words(words_from(s, from, i)),
    decreases s.len() - i,
{
    let all = words_from(s, from, i);
    if i >= s.len() {
        if from < s.len() {
            let w = s.subrange(from, s.len() as int);
            assert forall|j: int| 0 <= j < w.len() implies alphanumeric(#[trigger] w[j]) || w[j] == '_' by {
                assert(w[j] == s[from + j]);
            }
        }
    } else if wordy(s[i]) {
        words_are_words(s, from, i + 1);
    } else if from < i {
        let w = s.subrange(from, i);
        let rest = words_from(s, i + 1, i + 1);
        words_are_words(s, i + 1, i + 1);
        assert forall|j: int| 0 <= j < w.len() implies alphanumeric(#[trigger] w[j]) || w[j] == '_' by {
            assert(w[j] == s[from + j]);
        }
        assert(is_word(w));
        assert forall|k: int| 0 <= k < all.len() implies is_word(#[trigger] all[k]) by {
            if k > 0 {
                assert(all[k] == rest[k - 1]);
            }
        }
    } else {
        words_are_words(s, i + 1, i + 1);
    }
}

proof fn letter_is_kept(s: Chars, from: int, i: int, a: int, b: int)
    requires
        0 <= from <= i,
        from <= a,
        i <= b,
        a < b <= s.len(),
        forall|j: int| from <= j < i && j < s.len() ==> alphanumeric(#[trigger] s[j]) || s[j] == '_',
        forall|j: int| a <= j < b ==> alphanumeric(#[trigger] s[j]) || s[j] == '_',
        a == 0 || !(alphanumeric(s[a - 1]) || s[a - 1] == '_'),
        b == s.len() || !(alphanumeric(s[b]) || s[b] == '_'),
    ensures
        words_from(s, from, i).contains(s.subrange(a, b)),
    decreases s.len() - i,
{
    let all = words_from(s, from, i);
    if i >= s.len() {
        assert(from == a) by {
            if from < a {
                assert(alphanumeric(s[a - 1]) || s[a - 1] == '_');
            }
        }
        assert(all[0] == s.subrange(a, b));
    } else if wordy(s[i]) {
        letter_is_kept(s, from, i + 1, a, b);
    } else if from < i {
        let rest = words_from(s, i + 1, i + 1);
        if i == b {
            assert(from == a) by {
                if from < a {
                    assert(alphanumeric(s[a - 1]) || s[a - 1] == '_');
                }
            }
            assert(all[0] == s.subrange(a, b));
        } else {
            letter_is_kept(s, i + 1, i + 1, a, b);
            let k = choose|k: int| 0 <= k < rest.len() && rest[k] == s.subrange(a, b);
            assert(all[k + 1] == rest[k]);
        }
    } else {
        letter_is_kept(s, i + 1, i + 1, a, b);
    }
}

/// The words of a text are its longest stretches of letters, digits and `_`, and nothing else.
pub proof fn words_are_the_longest_stretches(s: Chars, a: int, b: int)
    requires
        0 <= a < b <= s.len(),
        forall|j: int| a <= j < b ==> alphanumeric(#[trigger] s[j]) || s[j] == '_',
        a == 0 || !(alphanumeric(s[a - 1]) || s[a - 1] == '_'),
        b == s.len() || !(alphanumeric(s[b]) || s[b] == '_'),
    ensures
        words_of(s).contains(s.subrange(a, b)),
        forall|k: int| 0 <= k < words_of(s).len() ==> is_word(#[trigger] words_of(s)[k]),
{
    letter_is_kept(s, 0, 0, a, b);
    words_are_words(s, 0, 0);
}

} // verus!
