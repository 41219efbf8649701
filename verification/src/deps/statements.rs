//! What a statement of a file imports, stated over its nodes.

use vstd::prelude::*;

use crate::deps::extract::{
    clause_from, clause_imports, clause_of, dots, from_names, guarded, has_token, imports_at, imports_of, imports_upto, leaf_of, local,
    python_modules, rebased, rebased_path, rust_uses, unquoted, use_list_from, use_paths_of, ClauseView, EdgeKind, RawImportView,
};
use crate::lang::Language;
use crate::text::{starts, stripped_end, stripped_start, Chars};
use crate::tree::{child_of, named_at, named_kids, the_named_children_are_kept, tree_ok, Nodes};

verus! {

proof fn py_kinds_differ()
    ensures
        "import_statement"@.len() == 16,
        "import_from_statement"@.len() == 21,
        "dotted_name"@.len() == 11,
        "aliased_import"@.len() == 14,
        "relative_import"@.len() == 15,
{
    reveal_strlit("import_statement");
    reveal_strlit("import_from_statement");
    reveal_strlit("dotted_name");
    reveal_strlit("aliased_import");
    reveal_strlit("relative_import");
}

proof fn js_kinds_differ()
    ensures
        "import_statement"@.len() == 16,
        "import_statement"@[0] == 'i',
        "import_statement"@[8] == 't',
        "export_statement"@.len() == 16,
        "export_statement"@[0] == 'e',
        "export_statement"@[8] == 't',
        "call_expression"@.len() == 15,
        "import_specifier"@.len() == 16,
        "import_specifier"@[0] == 'i',
        "import_specifier"@[8] == 'p',
        "export_specifier"@.len() == 16,
        "export_specifier"@[0] == 'e',
        "export_specifier"@[8] == 'p',
        "namespace_import"@.len() == 16,
        "namespace_import"@[0] == 'n',
        "namespace_import"@[10] == 'i',
        "namespace_export"@.len() == 16,
        "namespace_export"@[0] == 'n',
        "namespace_export"@[10] == 'e',
        "identifier"@.len() == 10,
        "string"@.len() == 6,
{
    reveal_strlit("import_statement");
    reveal_strlit("export_statement");
    reveal_strlit("call_expression");
    reveal_strlit("import_specifier");
    reveal_strlit("export_specifier");
    reveal_strlit("namespace_import");
    reveal_strlit("namespace_export");
    reveal_strlit("identifier");
    reveal_strlit("string");
}

proof fn rust_kinds_differ()
    ensures
        "mod_item"@.len() == 8,
        "mod_item"@[0] == 'm',
        "use_declaration"@.len() == 15,
        "use_declaration"@[0] == 'u',
        "scoped_use_list"@.len() == 15,
        "scoped_use_list"@[0] == 's',
        "use_list"@.len() == 8,
        "use_list"@[0] == 'u',
        "use_as_clause"@.len() == 13,
        "use_wildcard"@.len() == 12,
        "self"@.len() == 4,
        "identifier"@.len() == 10,
        "scoped_identifier"@.len() == 17,
        "crate"@.len() == 5,
        "crate"@[0] == 'c',
        "super"@.len() == 5,
        "super"@[0] == 's',
{
    reveal_strlit("mod_item");
    reveal_strlit("use_declaration");
    reveal_strlit("scoped_use_list");
    reveal_strlit("use_list");
    reveal_strlit("use_as_clause");
    reveal_strlit("use_wildcard");
    reveal_strlit("self");
    reveal_strlit("identifier");
    reveal_strlit("scoped_identifier");
    reveal_strlit("crate");
    reveal_strlit("super");
}

/// A file states an import of which something holds.
pub open spec fn states(t: Nodes, lang: Language, r: RawImportView) -> bool {
    exists|k: int| 0 <= k < imports_of(Some(t), lang).len() && #[trigger] imports_of(Some(t), lang)[k] == r
}

proof fn upto_keeps(t: Nodes, lang: Language, i: int, x: int, n: int)
    requires
        0 <= i < n,
        0 <= x < imports_at(t, i, lang).len(),
    ensures
        exists|k: int| 0 <= k < imports_upto(t, n, lang).len() && #[trigger] imports_upto(t, n, lang)[k] == imports_at(t, i, lang)[x],
    decreases n,
{
    let rest = imports_upto(t, n - 1, lang);
    let all = imports_upto(t, n, lang);
    if i == n - 1 {
        assert(all[rest.len() + x] == imports_at(t, i, lang)[x]);
    } else {
        upto_keeps(t, lang, i, x, n - 1);
        let k = choose|k: int| 0 <= k < rest.len() && #[trigger] rest[k] == imports_at(t, i, lang)[x];
        assert(all[k] == rest[k]);
    }
}

proof fn at_is_stated(t: Nodes, lang: Language, i: int, x: int)
    requires
        0 <= i < t.len(),
        0 <= x < imports_at(t, i, lang).len(),
    ensures
        states(t, lang, imports_at(t, i, lang)[x]),
{
    upto_keeps(t, lang, i, x, t.len() as int);
    let all = imports_upto(t, t.len() as int, lang);
    let k = choose|k: int| 0 <= k < all.len() && #[trigger] all[k] == imports_at(t, i, lang)[x];
    assert(imports_of(Some(t), lang)[k] == imports_at(t, i, lang)[x]);
}

/// A file without a tree states nothing.
pub proof fn an_unread_file_states_nothing(lang: Language)
    ensures
        imports_of(None, lang) == Seq::<RawImportView>::empty(),
{
}

// ---------- Python ----------

/// A node is another one or stands somewhere in it.
pub open spec fn stands_in(t: Nodes, i: int, a: int) -> bool
    decreases i,
{
    ||| i == a
    ||| 0 <= i < t.len() && (t[i].parent matches Some(p) && p < i && stands_in(t, p as int, a))
}

/// A node is the body of an `if` on the type checker's constant.
pub open spec fn checked_body(t: Nodes, a: int) -> bool {
    &&& 0 <= a < t.len()
    &&& t[a].parent matches Some(p) && p < a && t[p as int].kind == "if_statement"@ && child_of(t, p as int, "consequence"@) == Some(
        a as usize,
    ) && (child_of(t, p as int, "condition"@) matches Some(c) && (t[c as int].text == "TYPE_CHECKING"@ || t[c as int].text
        == "typing.TYPE_CHECKING"@))
}

/// Only the body of an `if TYPE_CHECKING` is for the type checker, with all that stands in it: not
/// its `else`, and not the body of another `if`.
pub proof fn only_a_checked_body_is_for_types(t: Nodes, i: int)
    requires
        0 <= i < t.len() <= usize::MAX,
    ensures
        guarded(t, i) <==> exists|a: int| #[trigger] stands_in(t, i, a) && checked_body(t, a),
    decreases i,
{
    if let Some(p) = t[i].parent {
        if p < i {
            only_a_checked_body_is_for_types(t, p as int);
            if guarded(t, i) {
                if guarded(t, p as int) {
                    let a = choose|a: int| #[trigger] stands_in(t, p as int, a) && checked_body(t, a);
                    assert(stands_in(t, i, a));
                } else {
                    assert(stands_in(t, i, i));
                    assert(checked_body(t, i));
                }
            }
            if exists|a: int| #[trigger] stands_in(t, i, a) && checked_body(t, a) {
                let a = choose|a: int| #[trigger] stands_in(t, i, a) && checked_body(t, a);
                if a != i {
                    assert(stands_in(t, p as int, a));
                }
            }
        }
    }
    if exists|a: int| #[trigger] stands_in(t, i, a) && checked_body(t, a) {
        let a = choose|a: int| #[trigger] stands_in(t, i, a) && checked_body(t, a);
        assert(t[i].parent is Some);
    }
}

/// An import is for the type checker alone exactly where its statement stands in such a body.
pub open spec fn kind_in(t: Nodes, i: int, kind: EdgeKind) -> bool {
    if exists|a: int| #[trigger] stands_in(t, i, a) && checked_body(t, a) {
        kind == EdgeKind::TypeOnly
    } else {
        kind == EdgeKind::Use
    }
}

proof fn module_is_listed(t: Nodes, kids: Seq<usize>, kind: EdgeKind, line: usize, k: int, name: Chars)
    requires
        0 <= k < kids.len(),
        t[kids[k] as int].kind == "dotted_name"@ && name == t[kids[k] as int].text || t[kids[k] as int].kind == "aliased_import"@ && (
        child_of(t, kids[k] as int, "name"@) matches Some(x) && t[x as int].text == name),
    ensures
        exists|m: int|
            0 <= m < python_modules(t, kids, kind, line).len() && (#[trigger] python_modules(t, kids, kind, line)[m]) == (RawImportView {
                spec: name,
                names: Seq::empty(),
                level: 0,
                syms: seq![name],
                glob: false,
                kind,
                line,
            }),
    decreases kids.len(),
{
    py_kinds_differ();
    let rest = python_modules(t, kids.drop_last(), kind, line);
    let all = python_modules(t, kids, kind, line);
    let want = RawImportView { spec: name, names: Seq::empty(), level: 0, syms: seq![name], glob: false, kind, line };
    if k == kids.len() - 1 {
        assert(all[rest.len() as int] == want);
    } else {
        module_is_listed(t, kids.drop_last(), kind, line, k, name);
        let m = choose|m: int| 0 <= m < rest.len() && (#[trigger] rest[m]) == want;
        assert(all[m] == want);
    }
}

/// `import a.b, c as d` imports `a.b` and `c`: each module under its own name, whatever it is called
/// in the file.
pub proof fn a_python_import_is_stated(t: Nodes, i: int, k: int, name: Chars)
    requires
        0 <= i < t.len() <= usize::MAX,
        t[i].kind == "import_statement"@,
        0 <= k < t[i].children.len(),
        t[t[i].children[k] as int].named,
        ({
            let c = t[i].children[k] as int;
            t[c].kind == "dotted_name"@ && name == t[c].text || t[c].kind == "aliased_import"@ && (child_of(t, c, "name"@) matches Some(x)
                && t[x as int].text == name)
        }),
    ensures
        exists|r: RawImportView|
            #[trigger] states(t, Language::Python, r) && r.spec == name && r.syms == seq![name] && r.names.len() == 0 && r.level == 0
                && !r.glob && r.line == t[i].line && kind_in(t, i, r.kind),
{
    py_kinds_differ();
    only_a_checked_body_is_for_types(t, i);
    the_named_children_are_kept(t, i);
    let kids = named_kids(t, i);
    assert(kids.contains(t[i].children[k]));
    let m = choose|m: int| 0 <= m < kids.len() && kids[m] == t[i].children[k];
    let kind = if guarded(t, i) { EdgeKind::TypeOnly } else { EdgeKind::Use };
    module_is_listed(t, kids, kind, t[i].line, m, name);
    let want = RawImportView { spec: name, names: Seq::empty(), level: 0, syms: seq![name], glob: false, kind, line: t[i].line };
    let all = imports_at(t, i, Language::Python);
    assert(all == python_modules(t, kids, kind, t[i].line));
    let x = choose|x: int| 0 <= x < all.len() && (#[trigger] all[x]) == want;
    at_is_stated(t, Language::Python, i, x);
    assert(states(t, Language::Python, want));
}

proof fn name_is_listed(t: Nodes, kids: Seq<usize>, k: int, name: Chars)
    requires
        0 <= k < kids.len(),
        t[kids[k] as int].field == "name"@,
        name.len() > 0,
        t[kids[k] as int].kind != "aliased_import"@ && name == t[kids[k] as int].text || t[kids[k] as int].kind == "aliased_import"@ && (
        child_of(t, kids[k] as int, "name"@) matches Some(x) && t[x as int].text == name),
    ensures
        from_names(t, kids).contains(name),
    decreases kids.len(),
{
    let rest = from_names(t, kids.drop_last());
    let all = from_names(t, kids);
    if k == kids.len() - 1 {
        assert(all[rest.len() as int] == name);
    } else {
        name_is_listed(t, kids.drop_last(), k, name);
        let m = choose|m: int| 0 <= m < rest.len() && rest[m] == name;
        assert(all[m] == name);
    }
}

proof fn names_are_from(t: Nodes, kids: Seq<usize>, x: int)
    requires
        0 <= x < from_names(t, kids).len(),
    ensures
        exists|k: int|
            0 <= k < kids.len() && t[#[trigger] kids[k] as int].field == "name"@ && (from_names(t, kids)[x] == t[kids[k] as int].text || (
            child_of(t, kids[k] as int, "name"@) matches Some(y) && from_names(t, kids)[x] == t[y as int].text)),
    decreases kids.len(),
{
    let less = kids.drop_last();
    let rest = from_names(t, less);
    let all = from_names(t, kids);
    if x < rest.len() {
        names_are_from(t, less, x);
        let k = choose|k: int|
            0 <= k < less.len() && t[#[trigger] less[k] as int].field == "name"@ && (rest[x] == t[less[k] as int].text || (child_of(
                t,
                less[k] as int,
                "name"@,
            ) matches Some(y) && rest[x] == t[y as int].text));
        assert(kids[k] == less[k]);
        assert(all[x] == rest[x]);
    } else {
        assert(kids[kids.len() - 1] == kids.last());
    }
}

proof fn dots_are_counted(s: Chars, d: int, k: int)
    requires
        0 <= k <= d <= s.len(),
        forall|i: int| k <= i < d ==> #[trigger] s[i] == '.',
        d == s.len() || s[d] != '.',
    ensures
        dots(s, k) == d,
    decreases d - k,
{
    if k < d {
        assert(s[k] == '.');
        dots_are_counted(s, d, k + 1);
    }
}

/// `from a.b import c, d as e` imports from `a.b` the names `c` and `d`, and nothing else by name; a
/// wildcard is noted as such.
pub proof fn a_python_from_import_is_stated(t: Nodes, i: int, m: usize)
    requires
        0 <= i < t.len() <= usize::MAX,
        t[i].kind == "import_from_statement"@,
        child_of(t, i, "module_name"@) == Some(m),
        t[m as int].kind != "relative_import"@,
    ensures
        exists|r: RawImportView| #[trigger] states(t, Language::Python, r) && from_module(t, i, r) && r.spec == t[m as int].text && r.level == 0,
{
    py_kinds_differ();
    from_is_stated(t, i, m);
    assert(imports_at(t, i, Language::Python)[0].spec == t[m as int].text);
}

/// `from ..a import c` is relative: its dots are its level, and what follows them its module.
pub proof fn a_python_relative_import_is_stated(t: Nodes, i: int, m: usize, d: int)
    requires
        0 <= i < t.len() <= usize::MAX,
        t[i].kind == "import_from_statement"@,
        child_of(t, i, "module_name"@) == Some(m),
        t[m as int].kind == "relative_import"@,
        0 <= d <= t[m as int].text.len(),
        d <= usize::MAX,
        forall|k: int| 0 <= k < d ==> #[trigger] t[m as int].text[k] == '.',
        d == t[m as int].text.len() || t[m as int].text[d] != '.',
    ensures
        exists|r: RawImportView|
            #[trigger] states(t, Language::Python, r) && from_module(t, i, r) && r.level == d && r.spec == t[m as int].text.subrange(
                d,
                t[m as int].text.len() as int,
            ),
{
    py_kinds_differ();
    dots_are_counted(t[m as int].text, d, 0);
    from_is_stated(t, i, m);
    assert(t[m as int].text.skip(d) =~= t[m as int].text.subrange(d, t[m as int].text.len() as int));
    assert(imports_at(t, i, Language::Python)[0].level == d);
}

/// What holds of the import of a `from` statement, whatever its module.
pub open spec fn from_module(t: Nodes, i: int, r: RawImportView) -> bool {
    let kids = t[i].children;
    &&& r.syms == r.names
    &&& forall|k: int, name: Chars|
        0 <= k < kids.len() && t[#[trigger] kids[k] as int].field == "name"@ && name.len() > 0 && (if t[kids[k] as int].kind
            == "aliased_import"@ {
            child_of(t, kids[k] as int, "name"@) matches Some(x) && t[x as int].text == name
        } else {
            name == t[kids[k] as int].text
        }) ==> #[trigger] r.names.contains(name)
    &&& forall|x: int|
        0 <= x < r.names.len() ==> exists|k: int|
            0 <= k < kids.len() && t[#[trigger] kids[k] as int].field == "name"@ && (#[trigger] r.names[x] == t[kids[k] as int].text || (child_of(
                t,
                kids[k] as int,
                "name"@,
            ) matches Some(y) && r.names[x] == t[y as int].text))
    &&& r.glob == exists|k: int| 0 <= k < kids.len() && t[#[trigger] kids[k] as int].kind == "wildcard_import"@
    &&& r.line == t[i].line
    &&& kind_in(t, i, r.kind)
}

proof fn from_is_stated(t: Nodes, i: int, m: usize)
    requires
        0 <= i < t.len() <= usize::MAX,
        t[i].kind == "import_from_statement"@,
        child_of(t, i, "module_name"@) == Some(m),
    ensures
        imports_at(t, i, Language::Python).len() == 1,
        states(t, Language::Python, imports_at(t, i, Language::Python)[0]),
        from_module(t, i, imports_at(t, i, Language::Python)[0]),
{
    py_kinds_differ();
    only_a_checked_body_is_for_types(t, i);
    at_is_stated(t, Language::Python, i, 0);
    let kids = t[i].children;
    let r = imports_at(t, i, Language::Python)[0];
    assert forall|k: int, name: Chars|
        0 <= k < kids.len() && t[#[trigger] kids[k] as int].field == "name"@ && name.len() > 0 && (if t[kids[k] as int].kind
            == "aliased_import"@ {
            child_of(t, kids[k] as int, "name"@) matches Some(x) && t[x as int].text == name
        } else {
            name == t[kids[k] as int].text
        }) implies #[trigger] r.names.contains(name) by {
        name_is_listed(t, kids, k, name);
    }
    assert forall|x: int| 0 <= x < r.names.len() implies exists|k: int|
        0 <= k < kids.len() && t[#[trigger] kids[k] as int].field == "name"@ && (#[trigger] r.names[x] == t[kids[k] as int].text || (child_of(
            t,
            kids[k] as int,
            "name"@,
        ) matches Some(y) && r.names[x] == t[y as int].text)) by {
        names_are_from(t, kids, x);
    }
}

// ---------- JavaScript and TypeScript ----------

/// A quotation mark.
pub open spec fn is_quote(c: char) -> bool {
    c == '"' || c == '\'' || c == '`'
}

/// A quoted text is what stands between the quotes.
pub proof fn quotes_are_dropped(inner: Chars, q: char)
    requires
        is_quote(q),
        inner.len() > 0,
        !is_quote(inner[0]),
        !is_quote(inner.last()),
    ensures
        unquoted(seq![q] + inner + seq![q]) == inner,
{
    reveal_strlit("\"'`");
    let set = "\"'`"@;
    assert(set[0] == '"' && set[1] == '\'' && set[2] == '`' && set.len() == 3);
    assert(set.contains(q));
    assert(!set.contains(inner[0]));
    assert(!set.contains(inner.last()));
    strips_one(inner, q, set);
}

proof fn strips_one(inner: Chars, q: char, set: Chars)
    requires
        set.contains(q),
        inner.len() > 0,
        !set.contains(inner[0]),
        !set.contains(inner.last()),
    ensures
        stripped_end(stripped_start(seq![q] + inner + seq![q], set), set) == inner,
{
    let s = seq![q] + inner + seq![q];
    let a = inner + seq![q];
    assert(s.skip(1) =~= a);
    assert(s[0] == q);
    assert(a[0] == inner[0]);
    assert(stripped_start(a, set) == a);
    assert(stripped_start(s, set) == a);
    assert(a.last() == q);
    assert(a.drop_last() =~= inner);
    assert(stripped_end(inner, set) == inner);
    assert(stripped_end(a, set) == inner);
}

/// An unnamed child of the kind stands in a node: a word of the statement.
pub open spec fn has_word(t: Nodes, i: int, word: Chars) -> bool {
    exists|k: int|
        0 <= k < t[i].children.len() && !t[#[trigger] t[i].children[k] as int].named && t[t[i].children[k] as int].kind == word
}

/// A node that an import statement reads as a whole: what stands in it is not read on its own.
pub open spec fn reads_whole(t: Nodes, i: int) -> bool {
    ||| t[i].kind == "import_specifier"@
    ||| t[i].kind == "export_specifier"@
    ||| t[i].kind == "namespace_import"@
    ||| t[i].kind == "namespace_export"@
    ||| t[i].kind == "string"@
    ||| is_default(t, i)
}

/// The name of a default import.
pub open spec fn is_default(t: Nodes, i: int) -> bool {
    t[i].kind == "identifier"@ && (t[i].parent matches Some(p) && t[p as int].kind == "import_clause"@)
}

/// A clause only grows.
spec fn clause_grows(a: ClauseView, b: ClauseView) -> bool {
    &&& forall|s: Chars| a.value.contains(s) ==> #[trigger] b.value.contains(s)
    &&& forall|s: Chars| a.types.contains(s) ==> #[trigger] b.types.contains(s)
    &&& a.glob ==> b.glob
    &&& a.value.len() <= b.value.len()
    &&& a.types.len() <= b.types.len()
}

proof fn pushed_has(s: Seq<Chars>, x: Chars)
    ensures
        s.push(x).contains(x),
        forall|y: Chars| s.contains(y) ==> #[trigger] s.push(x).contains(y),
{
    assert(s.push(x)[s.len() as int] == x);
    assert forall|y: Chars| s.contains(y) implies #[trigger] s.push(x).contains(y) by {
        let k = choose|k: int| 0 <= k < s.len() && s[k] == y;
        assert(s.push(x)[k] == y);
    }
}

proof fn clause_only_grows(t: Nodes, i: int, end: int, all_type: bool, c: ClauseView)
    ensures
        clause_grows(c, clause_from(t, i, end, all_type, c)),
    decreases t.len() - i,
{
    if 0 <= i < end && end <= t.len() {
        let kind = t[i].kind;
        let after = t[i].after as int;
        let name = crate::deps::extract::specifier_name(t, i);
        pushed_has(c.value, name);
        pushed_has(c.types, name);
        pushed_has(c.value, t[i].text);
        pushed_has(c.types, t[i].text);
        let more = if kind == "import_specifier"@ || kind == "export_specifier"@ {
            crate::deps::extract::named_more(c, name, all_type || has_token(t, i, "type"@))
        } else if kind == "namespace_import"@ || kind == "namespace_export"@ {
            ClauseView { glob: true, ..c }
        } else if is_default(t, i) {
            crate::deps::extract::named_more(c, t[i].text, all_type)
        } else {
            c
        };
        assert(clause_grows(c, more));
        if reads_whole(t, i) {
            if i < after <= t.len() {
                clause_only_grows(t, after, end, all_type, more);
            }
        } else {
            clause_only_grows(t, i + 1, end, all_type, c);
        }
    }
}

/// What a statement has read once it is past a specifier, a namespace or a default import.
spec fn clause_has(t: Nodes, j: int, all_type: bool, c: ClauseView) -> bool {
    let kind = t[j].kind;
    if kind == "import_specifier"@ || kind == "export_specifier"@ {
        child_of(t, j, "name"@) matches Some(n) ==> (if all_type || has_word(t, j, "type"@) {
            c.types.contains(t[n as int].text)
        } else {
            c.value.contains(t[n as int].text)
        })
    } else if kind == "namespace_import"@ || kind == "namespace_export"@ {
        c.glob
    } else if is_default(t, j) {
        if all_type {
            c.types.contains(t[j].text)
        } else {
            c.value.contains(t[j].text)
        }
    } else {
        true
    }
}

proof fn clause_reads(t: Nodes, x: int, end: int, all_type: bool, c: ClauseView, j: int)
    requires
        0 <= x <= j < end <= t.len(),
        forall|a: int| 0 <= a < t.len() ==> a < (#[trigger] t[a]).after <= t.len(),
        forall|a: int| x <= a < j && reads_whole(t, a) ==> (#[trigger] t[a]).after <= j,
        reads_whole(t, j),
    ensures
        clause_has(t, j, all_type, clause_from(t, x, end, all_type, c)),
    decreases j - x,
{
    js_kinds_differ();
    let after = t[x].after as int;
    let kind = t[x].kind;
    let name = crate::deps::extract::specifier_name(t, x);
    let more = if kind == "import_specifier"@ || kind == "export_specifier"@ {
        crate::deps::extract::named_more(c, name, all_type || has_token(t, x, "type"@))
    } else if kind == "namespace_import"@ || kind == "namespace_export"@ {
        ClauseView { glob: true, ..c }
    } else if is_default(t, x) {
        crate::deps::extract::named_more(c, t[x].text, all_type)
    } else {
        c
    };
    if x == j {
        pushed_has(c.value, name);
        pushed_has(c.types, name);
        pushed_has(c.value, t[x].text);
        pushed_has(c.types, t[x].text);
        assert(x < t[x].after <= t.len());
        clause_only_grows(t, after, end, all_type, more);
        assert(clause_from(t, x, end, all_type, c) == clause_from(t, after, end, all_type, more));
        assert(clause_has(t, j, all_type, more));
    } else if reads_whole(t, x) {
        assert(x < t[x].after <= t.len());
        clause_reads(t, after, end, all_type, more, j);
        assert(clause_from(t, x, end, all_type, c) == clause_from(t, after, end, all_type, more));
    } else {
        clause_reads(t, x + 1, end, all_type, c, j);
    }
}

/// An import of a statement brings a name in for the kind of use.
pub open spec fn brings(t: Nodes, i: int, spec: Chars, name: Chars, kind: EdgeKind) -> bool {
    exists|r: RawImportView|
        #[trigger] states(t, Language::TypeScript, r) && r.spec == spec && r.kind == kind && r.line == t[i].line && r.syms.contains(name)
}

/// A node of an import or export statement that nothing it reads as a whole encloses.
pub open spec fn read_by(t: Nodes, i: int, j: int) -> bool {
    &&& i < j < t[i].after
    &&& reads_whole(t, j)
    &&& forall|a: int| i <= a < j && reads_whole(t, a) ==> (#[trigger] t[a]).after <= j
}

proof fn clause_is_stated(t: Nodes, i: int, s: usize, j: int)
    requires
        tree_ok(t),
        0 <= i < t.len(),
        t[i].kind == "import_statement"@ || t[i].kind == "export_statement"@,
        child_of(t, i, "source"@) == Some(s),
        read_by(t, i, j),
    ensures
        clause_has(t, j, has_word(t, i, "type"@), clause_of(t, i)),
        imports_at(t, i, Language::TypeScript) == clause_imports(
            unquoted(t[s as int].text),
            clause_of(t, i),
            has_word(t, i, "type"@),
            t[i].line,
        ),
{
    js_kinds_differ();
    assert(crate::tree::node_ok(t, i));
    assert forall|a: int| 0 <= a < t.len() implies a < (#[trigger] t[a]).after <= t.len() by {
        assert(crate::tree::node_ok(t, a));
    }
    let all = has_token(t, i, "type"@);
    assert(all == has_word(t, i, "type"@));
    clause_reads(
        t,
        i,
        t[i].after as int,
        all,
        ClauseView { value: Seq::empty(), types: Seq::empty(), glob: has_token(t, i, "*"@) },
        j,
    );
}

proof fn clause_import_is_stated(t: Nodes, i: int, s: usize, c: ClauseView, all: bool, kind: EdgeKind, name: Chars)
    requires
        0 <= i < t.len(),
        imports_at(t, i, Language::TypeScript) == clause_imports(unquoted(t[s as int].text), c, all, t[i].line),
        kind == EdgeKind::TypeOnly && c.types.contains(name) || kind == EdgeKind::Use && c.value.contains(name) && !all,
    ensures
        brings(t, i, unquoted(t[s as int].text), name, kind),
{
    let spec = unquoted(t[s as int].text);
    let list = imports_at(t, i, Language::TypeScript);
    let x: int = if kind == EdgeKind::TypeOnly { 0 } else { list.len() - 1 };
    assert(0 <= x < list.len());
    assert(list[x].syms.contains(name));
    assert(list[x].kind == kind);
    at_is_stated(t, Language::TypeScript, i, x);
}

/// `import { a } from "m"` and `export { a } from "m"` bring `a` in from `m`; a specifier that says
/// `type`, or stands in a statement that does, brings it in as a type alone.
pub proof fn a_specifier_is_stated(t: Nodes, i: int, s: usize, j: int, n: usize)
    requires
        tree_ok(t),
        0 <= i < t.len(),
        t[i].kind == "import_statement"@ || t[i].kind == "export_statement"@,
        child_of(t, i, "source"@) == Some(s),
        read_by(t, i, j),
        t[j].kind == "import_specifier"@ || t[j].kind == "export_specifier"@,
        child_of(t, j, "name"@) == Some(n),
    ensures
        has_word(t, i, "type"@) || has_word(t, j, "type"@) ==> brings(
            t,
            i,
            unquoted(t[s as int].text),
            t[n as int].text,
            EdgeKind::TypeOnly,
        ),
        !has_word(t, i, "type"@) && !has_word(t, j, "type"@) ==> brings(t, i, unquoted(t[s as int].text), t[n as int].text, EdgeKind::Use),
{
    clause_is_stated(t, i, s, j);
    let all = has_word(t, i, "type"@);
    let kind = if all || has_word(t, j, "type"@) { EdgeKind::TypeOnly } else { EdgeKind::Use };
    clause_import_is_stated(t, i, s, clause_of(t, i), all, kind, t[n as int].text);
}

/// `import a from "m"` brings `a` in, as a type alone under `import type`.
pub proof fn a_default_import_is_stated(t: Nodes, i: int, s: usize, j: int)
    requires
        tree_ok(t),
        0 <= i < t.len(),
        t[i].kind == "import_statement"@ || t[i].kind == "export_statement"@,
        child_of(t, i, "source"@) == Some(s),
        read_by(t, i, j),
        is_default(t, j),
    ensures
        brings(
            t,
            i,
            unquoted(t[s as int].text),
            t[j].text,
            if has_word(t, i, "type"@) { EdgeKind::TypeOnly } else { EdgeKind::Use },
        ),
{
    js_kinds_differ();
    clause_is_stated(t, i, s, j);
    let all = has_word(t, i, "type"@);
    let kind = if all { EdgeKind::TypeOnly } else { EdgeKind::Use };
    clause_import_is_stated(t, i, s, clause_of(t, i), all, kind, t[j].text);
}

/// `import * as a from "m"` and `export * from "m"` bring in everything.
pub proof fn a_namespace_import_is_stated(t: Nodes, i: int, s: usize)
    requires
        tree_ok(t),
        0 <= i < t.len(),
        t[i].kind == "import_statement"@ || t[i].kind == "export_statement"@,
        child_of(t, i, "source"@) == Some(s),
        has_word(t, i, "*"@) || exists|j: int|
            #[trigger] read_by(t, i, j) && (t[j].kind == "namespace_import"@ || t[j].kind == "namespace_export"@),
    ensures
        exists|r: RawImportView|
            #[trigger] states(t, Language::TypeScript, r) && r.spec == unquoted(t[s as int].text) && r.glob && r.line == t[i].line && r.kind == (
            if has_word(t, i, "type"@) {
                EdgeKind::TypeOnly
            } else {
                EdgeKind::Use
            }),
{
    js_kinds_differ();
    let all = has_word(t, i, "type"@);
    let c = clause_of(t, i);
    assert(all == has_token(t, i, "type"@));
    if has_word(t, i, "*"@) {
        assert(has_token(t, i, "*"@));
        clause_only_grows(
            t,
            i,
            t[i].after as int,
            all,
            ClauseView { value: Seq::empty(), types: Seq::empty(), glob: has_token(t, i, "*"@) },
        );
    } else {
        let j = choose|j: int| #[trigger] read_by(t, i, j) && (t[j].kind == "namespace_import"@ || t[j].kind == "namespace_export"@);
        clause_is_stated(t, i, s, j);
    }
    let list = imports_at(t, i, Language::TypeScript);
    assert(list == clause_imports(unquoted(t[s as int].text), c, all, t[i].line));
    at_is_stated(t, Language::TypeScript, i, list.len() - 1);
}

/// Every import or export with a source is an import from that source, even one that names nothing.
pub proof fn a_source_is_imported(t: Nodes, i: int, s: usize)
    requires
        0 <= i < t.len(),
        t[i].kind == "import_statement"@ || t[i].kind == "export_statement"@,
        child_of(t, i, "source"@) == Some(s),
    ensures
        exists|r: RawImportView| #[trigger] states(t, Language::TypeScript, r) && r.spec == unquoted(t[s as int].text) && r.line == t[i].line,
{
    js_kinds_differ();
    at_is_stated(t, Language::TypeScript, i, 0);
}

/// `require("m")` and `import("m")` import from `m`.
pub proof fn a_call_imports_its_text(t: Nodes, i: int, f: usize, a: usize, x: usize)
    requires
        0 <= i < t.len(),
        t[i].kind == "call_expression"@,
        child_of(t, i, "function"@) == Some(f),
        t[f as int].text == "require"@ || t[f as int].text == "import"@,
        child_of(t, i, "arguments"@) == Some(a),
        named_at(t, a as int, 0) == Some(x),
        t[x as int].kind == "string"@,
    ensures
        brings(t, i, unquoted(t[x as int].text), unquoted(t[x as int].text), EdgeKind::Use),
{
    js_kinds_differ();
    let spec = unquoted(t[x as int].text);
    at_is_stated(t, Language::TypeScript, i, 0);
    let r = imports_at(t, i, Language::TypeScript)[0];
    assert(r.syms[0] == spec);
    assert(r.syms.contains(spec));
}

/// JavaScript states what TypeScript does.
pub proof fn both_scripts_import_alike(t: Nodes)
    ensures
        imports_of(Some(t), Language::JavaScript) == imports_of(Some(t), Language::TypeScript),
{
    alike_upto(t, t.len() as int);
}

proof fn alike_upto(t: Nodes, n: int)
    ensures
        imports_upto(t, n, Language::JavaScript) == imports_upto(t, n, Language::TypeScript),
    decreases n,
{
    if n > 0 {
        alike_upto(t, n - 1);
    }
}

// ---------- Rust ----------

/// `mod x;` declares the module of a file; `mod x { .. }` does not.
pub proof fn a_mod_without_a_body_is_stated(t: Nodes, i: int, n: usize)
    requires
        0 <= i < t.len(),
        t[i].kind == "mod_item"@,
        child_of(t, i, "name"@) == Some(n),
    ensures
        child_of(t, i, "body"@) is None ==> exists|r: RawImportView|
            #[trigger] states(t, Language::Rust, r) && r.spec == "mod:"@ + t[n as int].text && r.syms == seq![t[n as int].text] && !r.glob && r.kind
                == EdgeKind::Mod && r.line == t[i].line,
        child_of(t, i, "body"@) is Some ==> imports_at(t, i, Language::Rust).len() == 0,
{
    rust_kinds_differ();
    if child_of(t, i, "body"@) is None {
        at_is_stated(t, Language::Rust, i, 0);
    }
}

/// A path below a prefix.
pub open spec fn under_prefix(prefix: Chars, path: Chars) -> Chars {
    if prefix.len() == 0 {
        path
    } else {
        prefix + "::"@ + path
    }
}

/// What a name in a `use` tree names.
pub open spec fn uses(t: Nodes, n: int, prefix: Chars, path: Chars, name: Option<Chars>) -> bool {
    exists|k: int| 0 <= k < use_paths_of(t, n, prefix).len() && #[trigger] use_paths_of(t, n, prefix)[k] == (path, name)
}

/// A path in a `use` tree names itself below the prefix; its name is its last part.
pub proof fn a_path_is_used(t: Nodes, n: int, prefix: Chars)
    requires
        0 <= n < t.len(),
        t[n].kind == "identifier"@ || t[n].kind == "scoped_identifier"@ || t[n].kind == "crate"@ || t[n].kind == "super"@ || (t[n].kind == "self"@
            && prefix.len() == 0),
    ensures
        use_paths_of(t, n, prefix).len() == 1,
        uses(t, n, prefix, under_prefix(prefix, t[n].text), Some(leaf_of(under_prefix(prefix, t[n].text)))),
{
    rust_kinds_differ();
    assert(use_paths_of(t, n, prefix)[0] == (under_prefix(prefix, t[n].text), Some(leaf_of(under_prefix(prefix, t[n].text)))));
}

/// The last part of `a::b::c` is `c`.
pub proof fn a_leaf_is_the_last_part(head: Chars, last: Chars)
    requires
        forall|i: int| 0 <= i < last.len() ==> #[trigger] last[i] != ':',
    ensures
        leaf_of(head + "::"@ + last) == last,
        leaf_of(last) == last,
{
    reveal_strlit("::");
    let s = head + "::"@ + last;
    let h = head.len() as int;
    assert(s.subrange(h, h + 2) =~= "::"@);
    back_is_found(s, h, s.len() as int);
    assert(s.skip(h + 2) =~= last);
    nothing_is_found_back(last, last.len() as int);
}

proof fn back_is_found(s: Chars, h: int, i: int)
    requires
        0 <= h <= i,
        h + 2 <= s.len(),
        s.subrange(h, h + 2) == "::"@,
        forall|k: int| h + 2 <= k < s.len() ==> #[trigger] s[k] != ':',
    ensures
        crate::text::find_back(s, "::"@, i) == Some(h),
    decreases i - h,
{
    reveal_strlit("::");
    if h < i {
        if crate::text::stands_at(s, "::"@, i) {
            assert(s.subrange(i, i + 2)[1] == s[i + 1]);
            assert("::"@[1] == ':');
        }
        back_is_found(s, h, i - 1);
    }
}

proof fn nothing_is_found_back(s: Chars, i: int)
    requires
        forall|k: int| 0 <= k < s.len() ==> #[trigger] s[k] != ':',
    ensures
        crate::text::find_back(s, "::"@, i) is None,
    decreases i + 1,
{
    reveal_strlit("::");
    if i >= 0 {
        if crate::text::stands_at(s, "::"@, i) {
            assert(s.subrange(i, i + 2)[0] == s[i]);
            assert("::"@[0] == ':');
        }
        nothing_is_found_back(s, i - 1);
    }
}

/// `a as b` uses `a`.
pub proof fn a_renamed_path_is_used_as_itself(t: Nodes, n: int, prefix: Chars, p: usize)
    requires
        0 <= n < t.len(),
        t[n].kind == "use_as_clause"@,
        child_of(t, n, "path"@) == Some(p),
        n < p < t.len(),
    ensures
        use_paths_of(t, n, prefix) == use_paths_of(t, p as int, prefix),
{
    rust_kinds_differ();
}

/// `a::*` uses all of `a`; `{*}` below `a` does too.
pub proof fn a_wildcard_uses_all(t: Nodes, n: int, prefix: Chars)
    requires
        0 <= n < t.len(),
        t[n].kind == "use_wildcard"@,
    ensures
        named_at(t, n, 0) matches Some(p) ==> uses(t, n, prefix, under_prefix(prefix, t[p as int].text), None),
        named_at(t, n, 0) is None && prefix.len() > 0 ==> uses(t, n, prefix, prefix, None),
{
    rust_kinds_differ();
    if named_at(t, n, 0) is Some || prefix.len() > 0 {
        assert(use_paths_of(t, n, prefix).len() == 1);
        assert(use_paths_of(t, n, prefix)[0].1 is None);
    }
}

/// `a::{self}` uses `a` under its own name.
pub proof fn a_self_in_a_list_is_its_prefix(t: Nodes, n: int, prefix: Chars)
    requires
        0 <= n < t.len(),
        t[n].kind == "self"@,
        prefix.len() > 0,
    ensures
        uses(t, n, prefix, prefix, Some(leaf_of(prefix))),
{
    rust_kinds_differ();
    assert(use_paths_of(t, n, prefix)[0] == (prefix, Some(leaf_of(prefix))));
}

/// `a::{b, c}` uses what `b` and `c` use below `a`; `{b, c}` uses what they use where it stands.
pub proof fn a_list_uses_what_its_parts_use(t: Nodes, n: int, prefix: Chars, k: int, path: Chars, name: Option<Chars>)
    requires
        0 <= n < t.len(),
        t[n].kind == "use_list"@,
        0 <= k < t[n].children.len(),
        t[t[n].children[k] as int].named,
        n < t[n].children[k] < t.len(),
        uses(t, t[n].children[k] as int, prefix, path, name),
    ensures
        uses(t, n, prefix, path, name),
{
    rust_kinds_differ();
    the_named_children_are_kept(t, n);
    let kids = named_kids(t, n);
    assert(kids.contains(t[n].children[k]));
    let m = choose|m: int| 0 <= m < kids.len() && kids[m] == t[n].children[k];
    list_keeps(t, n, 0, m, prefix, path, name);
    let all = use_list_from(t, n, 0, prefix);
    let x = choose|x: int| 0 <= x < all.len() && #[trigger] all[x] == (path, name);
    assert(use_paths_of(t, n, prefix)[x] == (path, name));
}

proof fn list_keeps(t: Nodes, n: int, j: int, m: int, prefix: Chars, path: Chars, name: Option<Chars>)
    requires
        0 <= n < t.len(),
        0 <= j <= m < named_kids(t, n).len(),
        n < named_kids(t, n)[m] < t.len(),
        uses(t, named_kids(t, n)[m] as int, prefix, path, name),
    ensures
        exists|x: int| 0 <= x < use_list_from(t, n, j, prefix).len() && #[trigger] use_list_from(t, n, j, prefix)[x] == (path, name),
    decreases m - j,
{
    let c = named_kids(t, n)[j] as int;
    let first = if n < c < t.len() { use_paths_of(t, c, prefix) } else { Seq::empty() };
    let rest = use_list_from(t, n, j + 1, prefix);
    let all = use_list_from(t, n, j, prefix);
    assert(all == first + rest);
    if j == m {
        let x = choose|x: int| 0 <= x < first.len() && #[trigger] first[x] == (path, name);
        assert(all[x] == (path, name));
    } else {
        list_keeps(t, n, j + 1, m, prefix, path, name);
        let x = choose|x: int| 0 <= x < rest.len() && #[trigger] rest[x] == (path, name);
        assert(all[first.len() + x] == (path, name));
    }
}

/// `a::{..}` is read below `a`.
pub proof fn a_list_stands_below_its_path(t: Nodes, n: int, prefix: Chars, l: usize)
    requires
        0 <= n < t.len(),
        t[n].kind == "scoped_use_list"@,
        child_of(t, n, "list"@) == Some(l),
        n < l < t.len(),
    ensures
        child_of(t, n, "path"@) matches Some(p) ==> use_paths_of(t, n, prefix) == use_paths_of(
            t,
            l as int,
            under_prefix(prefix, t[p as int].text),
        ),
        child_of(t, n, "path"@) is None ==> use_paths_of(t, n, prefix) == use_paths_of(t, l as int, prefix),
{
    rust_kinds_differ();
}

/// A path of this crate.
pub open spec fn of_this_crate(p: Chars) -> bool {
    ||| p == "crate"@
    ||| p == "super"@
    ||| p == "self"@
    ||| starts(p, "crate::"@)
    ||| starts(p, "super::"@)
    ||| starts(p, "self::"@)
}

proof fn use_is_listed(paths: Seq<(Chars, Option<Chars>)>, depth: nat, line: usize, j: int, k: int, p: Chars)
    requires
        0 <= j <= k < paths.len(),
        rebased_path(paths[k].0, depth) == Some(p),
        of_this_crate(p),
    ensures
        exists|x: int|
            0 <= x < rust_uses(paths, depth, line, j).len() && (#[trigger] rust_uses(paths, depth, line, j)[x]) == used_as(
                p,
                paths[k].1,
                line,
            ),
    decreases k - j,
{
    let rest = rust_uses(paths, depth, line, j + 1);
    let all = rust_uses(paths, depth, line, j);
    if j == k {
        assert(local(p));
        assert(all[0] == used_as(p, paths[k].1, line));
    } else {
        use_is_listed(paths, depth, line, j + 1, k, p);
        let x = choose|x: int| 0 <= x < rest.len() && (#[trigger] rest[x]) == used_as(p, paths[k].1, line);
        assert(all[all.len() - rest.len() + x] == rest[x]);
    }
}

/// The import of a path under a name, or of all below it.
pub open spec fn used_as(path: Chars, name: Option<Chars>, line: usize) -> RawImportView {
    RawImportView {
        spec: path,
        names: Seq::empty(),
        level: 0,
        syms: match name {
            Some(s) => seq![s],
            None => Seq::empty(),
        },
        glob: name is None,
        kind: EdgeKind::Use,
        line,
    }
}

/// A `use` outside any module of its own imports each path of this crate that its tree names, and
/// none of another crate.
pub proof fn a_use_imports_the_paths_of_this_crate(t: Nodes, i: int, a: usize, path: Chars, name: Option<Chars>)
    requires
        0 <= i < t.len(),
        t[i].kind == "use_declaration"@,
        child_of(t, i, "argument"@) == Some(a),
        crate::deps::extract::mod_depth(t, i) == 0,
        uses(t, a as int, Seq::empty(), path, name),
        of_this_crate(path),
    ensures
        states(t, Language::Rust, used_as(path, name, t[i].line)),
{
    rust_kinds_differ();
    let paths = use_paths_of(t, a as int, Seq::empty());
    let k = choose|k: int| 0 <= k < paths.len() && #[trigger] paths[k] == (path, name);
    use_is_listed(paths, 0, t[i].line, 0, k, path);
    let all = imports_at(t, i, Language::Rust);
    assert(all == rust_uses(paths, 0, t[i].line, 0));
    let x = choose|x: int| 0 <= x < all.len() && (#[trigger] all[x]) == used_as(path, name, t[i].line);
    at_is_stated(t, Language::Rust, i, x);
}

/// Every import that a Rust file states is a `mod` declaration or names a path of this crate.
pub proof fn a_rust_import_stays_in_the_crate(t: Nodes, i: int, x: int)
    requires
        0 <= i < t.len(),
        0 <= x < imports_at(t, i, Language::Rust).len(),
    ensures
        imports_at(t, i, Language::Rust)[x].kind == EdgeKind::Mod && t[i].kind == "mod_item"@ || imports_at(t, i, Language::Rust)[x].kind
            == EdgeKind::Use && t[i].kind == "use_declaration"@ && of_this_crate(imports_at(t, i, Language::Rust)[x].spec),
{
    if t[i].kind == "use_declaration"@ {
        rust_kinds_differ();
        if let Some(a) = child_of(t, i, "argument"@) {
            uses_stay(use_paths_of(t, a as int, Seq::empty()), crate::deps::extract::mod_depth(t, i), t[i].line, 0, x);
        }
    }
}

proof fn uses_stay(paths: Seq<(Chars, Option<Chars>)>, depth: nat, line: usize, j: int, x: int)
    requires
        0 <= j,
        0 <= x < rust_uses(paths, depth, line, j).len(),
    ensures
        of_this_crate(rust_uses(paths, depth, line, j)[x].spec),
        rust_uses(paths, depth, line, j)[x].kind == EdgeKind::Use,
    decreases paths.len() - j,
{
    let rest = rust_uses(paths, depth, line, j + 1);
    let all = rust_uses(paths, depth, line, j);
    let d = all.len() - rest.len();
    if x >= d {
        assert(all[x] == rest[x - d]);
        uses_stay(paths, depth, line, j + 1, x - d);
    }
}

/// In a module of its own a path of the crate is itself, and each module takes one `super` away; a
/// path that leaves fewer modules than it stands in names nothing in another file.
pub proof fn a_module_takes_a_super_away(segs: Seq<Chars>, d: nat)
    requires
        segs.len() > 0,
    ensures
        rebased(seq!["super"@] + segs, d + 1) == rebased(segs, d),
        segs[0] != "super"@ ==> rebased(segs, d + 1) is None,
        segs[0] == "super"@ || segs[0] == "self"@ ==> rebased(segs, 0) == Some(crate::text::joined(segs, "::"@)),
        segs[0] != "super"@ && segs[0] != "self"@ ==> rebased(segs, 0) == Some(crate::text::joined(seq!["self"@] + segs, "::"@)),
{
    let more = seq!["super"@] + segs;
    assert(more.skip(1) =~= segs);
    assert(more[0] == "super"@);
}

} // verus!
