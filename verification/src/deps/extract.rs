//! The imports a file states.

use vstd::prelude::*;

use crate::lang::Language;
use crate::text::{
    chars, copy_list, join, joined, parts, plus, put, same, slice, split_on, starts, starts_with, strip_end,
    strip_start, stripped_end, stripped_start, Chars,
};
use crate::tree::{child_of, named_at, named_kids, Nodes, SyntaxTree};

verus! {

/// What an import is for.
#[derive(Debug, Clone, Copy, PartialEq, Eq, Structural)]
pub enum EdgeKind {
    /// TypeScript `import type`, `import { type X }` and `export type { X } from`, and Python
    /// imports under `if TYPE_CHECKING`: erased at runtime.
    TypeOnly,
    Use,
    /// A Rust `mod x;` declaration contributes: the edge cannot be cut by removing an import.
    Mod,
}

impl DeepView for EdgeKind {
    type V = EdgeKind;

    open spec fn deep_view(&self) -> EdgeKind {
        *self
    }
}

/// One import as written.
pub struct RawImport {
    /// Module spec as written: `a.b.c`, `./x`, `crate::y`.
    pub spec: String,
    /// Python: `from a.b import c`, where `c` may itself be a submodule.
    pub names: Vec<String>,
    /// Python relative-import level (number of leading dots).
    pub level: usize,
    /// What the import brings in: the leaf names, or a wildcard.
    pub syms: Vec<String>,
    pub glob: bool,
    pub kind: EdgeKind,
    pub line: usize,
}

/// A [`RawImport`] by its contents.
pub struct RawImportView {
    pub spec: Chars,
    pub names: Seq<Chars>,
    pub level: usize,
    pub syms: Seq<Chars>,
    pub glob: bool,
    pub kind: EdgeKind,
    pub line: usize,
}

impl DeepView for RawImport {
    type V = RawImportView;

    open spec fn deep_view(&self) -> RawImportView {
        RawImportView {
            spec: self.spec@,
            names: self.names.deep_view(),
            level: self.level,
            syms: self.syms.deep_view(),
            glob: self.glob,
            kind: self.kind,
            line: self.line,
        }
    }
}

/// An import of a module as a whole.
pub open spec fn plain(spec: Chars, syms: Seq<Chars>, glob: bool, kind: EdgeKind, line: usize) -> RawImportView {
    RawImportView { spec, names: Seq::empty(), level: 0, syms, glob, kind, line }
}

impl RawImport {
    /// An import of a module as a whole.
    pub fn new(spec: String, syms: Vec<String>, glob: bool, kind: EdgeKind, line: usize) -> (r: RawImport)
        ensures
            r.deep_view() == plain(spec@, syms.deep_view(), glob, kind, line),
    {
        let names: Vec<String> = Vec::new();
        assert(names.deep_view() =~= Seq::<Chars>::empty());
        RawImport { spec, names, level: 0, syms, glob, kind, line }
    }
}

fn one_name(s: &str) -> (out: Vec<String>)
    ensures
        out.deep_view() == seq![s@],
{
    let mut out: Vec<String> = Vec::new();
    put(&mut out, s.to_owned());
    assert(out.deep_view() =~= seq![s@]);
    out
}

/// Some child that is no named node has this kind.
pub open spec fn has_token(t: Nodes, i: int, kind: Chars) -> bool {
    exists|k: int|
        0 <= k < t[i].children.len() && !t[#[trigger] t[i].children[k] as int].named && t[t[i].children[k] as int].kind
            == kind
}

/// True when `i` has an anonymous child of this kind (`import type …`, `{ type X }`).
pub fn token_in(t: &SyntaxTree, i: usize, kind: &str) -> (r: bool)
    requires
        t.ok(),
        i < t@.len(),
    ensures
        r == has_token(t@, i as int, kind@),
{
    let kids = &t.nodes[i].children;
    assert(t@[i as int] == t.nodes@[i as int].deep_view());
    assert(crate::tree::node_ok(t@, i as int));
    let mut k: usize = 0;
    while k < kids.len()
        invariant
            k <= kids.len(),
            t.ok(),
            i < t@.len(),
            kids@ == t@[i as int].children,
            crate::tree::node_ok(t@, i as int),
            forall|j: int|
                0 <= j < k ==> !(!t@[#[trigger] kids@[j] as int].named && t@[kids@[j] as int].kind == kind@),
        decreases kids.len() - k,
    {
        assert(i < t@[i as int].children[k as int] < t@.len());
        let c: usize = kids[k];
        assert(t@[c as int] == t.nodes@[c as int].deep_view());
        if !t.nodes[c].named && t.is(c, kind) {
            return true;
        }
        k = k + 1;
    }
    false
}

/// Some child has this kind.
pub open spec fn has_child(t: Nodes, i: int, kind: Chars) -> bool {
    exists|k: int| 0 <= k < t[i].children.len() && t[#[trigger] t[i].children[k] as int].kind == kind
}

fn child_is_in(t: &SyntaxTree, i: usize, kind: &str) -> (r: bool)
    requires
        t.ok(),
        i < t@.len(),
    ensures
        r == has_child(t@, i as int, kind@),
{
    let kids = &t.nodes[i].children;
    assert(t@[i as int] == t.nodes@[i as int].deep_view());
    assert(crate::tree::node_ok(t@, i as int));
    let mut k: usize = 0;
    while k < kids.len()
        invariant
            k <= kids.len(),
            t.ok(),
            i < t@.len(),
            kids@ == t@[i as int].children,
            crate::tree::node_ok(t@, i as int),
            forall|j: int| 0 <= j < k ==> t@[#[trigger] kids@[j] as int].kind != kind@,
        decreases kids.len() - k,
    {
        assert(i < t@[i as int].children[k as int] < t@.len());
        if t.is(kids[k], kind) {
            return true;
        }
        k = k + 1;
    }
    false
}

// ---------- Python ----------

/// The name an import names: that of an alias is what it stands for.
pub open spec fn python_name(t: Nodes, c: int) -> Chars {
    if t[c].kind == "aliased_import"@ {
        match child_of(t, c, "name"@) {
            Some(x) => t[x as int].text,
            None => Seq::empty(),
        }
    } else {
        t[c].text
    }
}

fn name_python(t: &SyntaxTree, c: usize) -> (r: String)
    requires
        t.ok(),
        c < t@.len(),
    ensures
        r@ == python_name(t@, c as int),
{
    if t.is(c, "aliased_import") {
        match t.child(c, "name") {
            Some(x) => t.text(x).to_owned(),
            None => String::new(),
        }
    } else {
        t.text(c).to_owned()
    }
}

/// A condition that holds only while types are checked.
pub open spec fn type_check(text: Chars) -> bool {
    text == "TYPE_CHECKING"@ || text == "typing.TYPE_CHECKING"@
}

/// Node `i`, or one it stands in, is what an `if TYPE_CHECKING` guards.
pub open spec fn guarded(t: Nodes, i: int) -> bool
    decreases i,
{
    if i < 0 || i >= t.len() {
        false
    } else {
        match t[i].parent {
            None => false,
            Some(p) => if p < i {
                ||| t[p as int].kind == "if_statement"@ && child_of(t, p as int, "consequence"@) == Some(i as usize) && (
                match child_of(t, p as int, "condition"@) {
                    Some(c) => type_check(t[c as int].text),
                    None => false,
                })
                ||| guarded(t, p as int)
            } else {
                false
            },
        }
    }
}

fn is_guarded(t: &SyntaxTree, i: usize) -> (r: bool)
    requires
        t.ok(),
        i < t@.len(),
    ensures
        r == guarded(t@, i as int),
{
    let mut at: usize = i;
    loop
        invariant
            t.ok(),
            at < t@.len(),
            guarded(t@, i as int) == guarded(t@, at as int),
        decreases at,
    {
        match t.parent(at) {
            None => {
                return false;
            },
            Some(p) => {
                if t.is(p, "if_statement") {
                    if let Some(body) = t.child(p, "consequence") {
                        if body == at {
                            if let Some(c) = t.child(p, "condition") {
                                if same(t.text(c), "TYPE_CHECKING") || same(t.text(c), "typing.TYPE_CHECKING") {
                                    return true;
                                }
                            }
                        }
                    }
                }
                at = p;
            },
        }
    }
}

/// What a Python import is for.
pub open spec fn python_kind(t: Nodes, i: int) -> EdgeKind {
    if guarded(t, i) {
        EdgeKind::TypeOnly
    } else {
        EdgeKind::Use
    }
}

/// The modules `import a, b.c as d` names.
pub open spec fn python_modules(t: Nodes, kids: Seq<usize>, kind: EdgeKind, line: usize) -> Seq<RawImportView>
    decreases kids.len(),
{
    if kids.len() == 0 {
        Seq::empty()
    } else {
        let rest = python_modules(t, kids.drop_last(), kind, line);
        let c = kids.last() as int;
        if t[c].kind == "dotted_name"@ || t[c].kind == "aliased_import"@ {
            let name = python_name(t, c);
            rest.push(plain(name, seq![name], false, kind, line))
        } else {
            rest
        }
    }
}

/// The names among the children that fill the field `name`.
pub open spec fn from_names(t: Nodes, kids: Seq<usize>) -> Seq<Chars>
    decreases kids.len(),
{
    if kids.len() == 0 {
        Seq::empty()
    } else {
        let rest = from_names(t, kids.drop_last());
        let c = kids.last() as int;
        if t[c].field == "name"@ && python_name(t, c).len() > 0 {
            rest.push(python_name(t, c))
        } else {
            rest
        }
    }
}

/// How many dots a text starts with, from `k` on.
pub open spec fn dots(s: Chars, k: int) -> int
    decreases s.len() - k,
{
    if k < 0 || k >= s.len() || s[k] != '.' {
        k
    } else {
        dots(s, k + 1)
    }
}

/// The module of `from m import …`, and its level.
pub open spec fn python_module(t: Nodes, m: int) -> (Chars, int) {
    if t[m].kind == "relative_import"@ {
        let d = dots(t[m].text, 0);
        (t[m].text.skip(d), d)
    } else {
        (t[m].text, 0)
    }
}

/// The imports a Python node states.
pub open spec fn python_at(t: Nodes, i: int) -> Seq<RawImportView> {
    if t[i].kind == "import_statement"@ {
        python_modules(t, named_kids(t, i), python_kind(t, i), t[i].line)
    } else if t[i].kind == "import_from_statement"@ {
        match child_of(t, i, "module_name"@) {
            None => Seq::empty(),
            Some(m) => {
                let names = from_names(t, t[i].children);
                let (spec, level) = python_module(t, m as int);
                seq![
                    RawImportView {
                        spec,
                        names,
                        level: level as usize,
                        syms: names,
                        glob: has_child(t, i, "wildcard_import"@),
                        kind: python_kind(t, i),
                        line: t[i].line,
                    },
                ]
            },
        }
    } else {
        Seq::empty()
    }
}

fn modules_python(t: &SyntaxTree, i: usize, kind: EdgeKind, line: usize, out: &mut Vec<RawImport>)
    requires
        t.ok(),
        i < t@.len(),
    ensures
        final(out).deep_view() == old(out).deep_view() + python_modules(t@, named_kids(t@, i as int), kind, line),
{
    let kids = t.named_children(i);
    let ghost view = kids@;
    let ghost start = out.deep_view();
    proof {
        crate::tree::named_kids_are_later(t@, i as int);
    }
    let mut k: usize = 0;
    assert(view.take(0) =~= Seq::<usize>::empty());
    assert(start + Seq::<RawImportView>::empty() =~= start);
    while k < kids.len()
        invariant
            k <= kids.len(),
            view == kids@,
            t.ok(),
            forall|j: int| 0 <= j < view.len() ==> #[trigger] view[j] < t@.len(),
            out.deep_view() == start + python_modules(t@, view.take(k as int), kind, line),
        decreases kids.len() - k,
    {
        assert(view.take(k + 1).drop_last() =~= view.take(k as int));
        let c: usize = kids[k];
        assert(view[k as int] < t@.len());
        if t.is(c, "dotted_name") || t.is(c, "aliased_import") {
            let ghost rest = python_modules(t@, view.take(k as int), kind, line);
            let name = name_python(t, c);
            let syms = one_name(name.as_str());
            let r = RawImport::new(name, syms, false, kind, line);
            let ghost rv = r.deep_view();
            put(out, r);
            assert((start + rest).push(rv) =~= start + rest.push(rv));
        }
        k = k + 1;
    }
    assert(view.take(view.len() as int) =~= view);
}

fn names_from(t: &SyntaxTree, i: usize) -> (out: Vec<String>)
    requires
        t.ok(),
        i < t@.len(),
    ensures
        out.deep_view() == from_names(t@, t@[i as int].children),
{
    let kids = &t.nodes[i].children;
    assert(t@[i as int] == t.nodes@[i as int].deep_view());
    assert(crate::tree::node_ok(t@, i as int));
    let ghost view = kids@;
    let mut out: Vec<String> = Vec::new();
    let mut k: usize = 0;
    assert(view.take(0) =~= Seq::<usize>::empty());
    assert(out.deep_view() =~= Seq::<Chars>::empty());
    while k < kids.len()
        invariant
            k <= kids.len(),
            view == kids@,
            t.ok(),
            i < t@.len(),
            view == t@[i as int].children,
            crate::tree::node_ok(t@, i as int),
            out.deep_view() == from_names(t@, view.take(k as int)),
        decreases kids.len() - k,
    {
        assert(view.take(k + 1).drop_last() =~= view.take(k as int));
        assert(i < t@[i as int].children[k as int] < t@.len());
        let c: usize = kids[k];
        assert(t@[c as int] == t.nodes@[c as int].deep_view());
        if same(t.nodes[c].field.as_str(), "name") {
            let name = name_python(t, c);
            if !name.as_str().is_empty() {
                put(&mut out, name);
            }
        }
        k = k + 1;
    }
    assert(view.take(view.len() as int) =~= view);
    out
}

fn module_python(t: &SyntaxTree, m: usize) -> (r: (String, usize))
    requires
        t.ok(),
        m < t@.len(),
    ensures
        (r.0@, r.1 as int) == python_module(t@, m as int),
{
    if t.is(m, "relative_import") {
        let a = chars(t.text(m));
        let mut d: usize = 0;
        while d < a.len() && a[d] == '.'
            invariant
                d <= a.len(),
                dots(a@, 0) == dots(a@, d as int),
            decreases a.len() - d,
        {
            d = d + 1;
        }
        assert(a@.subrange(d as int, a@.len() as int) =~= a@.skip(d as int));
        (slice(&a, d, a.len()), d)
    } else {
        (t.text(m).to_owned(), 0)
    }
}

/// Adds the imports a Python node states.
pub fn extract_python(t: &SyntaxTree, i: usize, out: &mut Vec<RawImport>)
    requires
        t.ok(),
        i < t@.len(),
    ensures
        final(out).deep_view() == old(out).deep_view() + python_at(t@, i as int),
{
    assert(t@[i as int] == t.nodes@[i as int].deep_view());
    let ghost was = out.deep_view();
    assert(was + Seq::<RawImportView>::empty() =~= was);
    if t.is(i, "import_statement") {
        let kind = if is_guarded(t, i) {
            EdgeKind::TypeOnly
        } else {
            EdgeKind::Use
        };
        modules_python(t, i, kind, t.nodes[i].line, out);
    } else if t.is(i, "import_from_statement") {
        if let Some(m) = t.child(i, "module_name") {
            let kind = if is_guarded(t, i) {
                EdgeKind::TypeOnly
            } else {
                EdgeKind::Use
            };
            let names = names_from(t, i);
            let (spec, level) = module_python(t, m);
            let glob = child_is_in(t, i, "wildcard_import");
            let r = RawImport { spec, syms: copy_list(&names), names, level, glob, kind, line: t.nodes[i].line };
            let ghost rv = r.deep_view();
            put(out, r);
            assert(was.push(rv) =~= was + seq![rv]);
        }
    }
}

// ---------- JavaScript and TypeScript ----------

/// A text without the quotes around it.
pub open spec fn unquoted(s: Chars) -> Chars {
    stripped_end(stripped_start(s, "\"'`"@), "\"'`"@)
}

/// A text without the quotes around it.
pub fn unquote(s: &str) -> (out: String)
    ensures
        out@ == unquoted(s@),
{
    strip_end(strip_start(s, "\"'`").as_str(), "\"'`")
}

/// What an import clause names: at runtime, and as types only; and whether it is a wildcard.
pub struct ClauseView {
    pub value: Seq<Chars>,
    pub types: Seq<Chars>,
    pub glob: bool,
}

/// The name of a specifier.
pub open spec fn specifier_name(t: Nodes, i: int) -> Chars {
    match child_of(t, i, "name"@) {
        Some(x) => t[x as int].text,
        None => Seq::empty(),
    }
}

/// A default import.
pub open spec fn default_import(t: Nodes, i: int) -> bool {
    t[i].kind == "identifier"@ && (t[i].parent matches Some(p) && t[p as int].kind == "import_clause"@)
}

/// A clause and one more name.
pub open spec fn named_more(c: ClauseView, name: Chars, as_type: bool) -> ClauseView {
    if as_type {
        ClauseView { types: c.types.push(name), ..c }
    } else {
        ClauseView { value: c.value.push(name), ..c }
    }
}

/// What the nodes from `i` to `end` add to a clause.
pub open spec fn clause_from(t: Nodes, i: int, end: int, all_type: bool, c: ClauseView) -> ClauseView
    decreases t.len() - i,
{
    if i < 0 || i >= end || end > t.len() {
        c
    } else {
        let kind = t[i].kind;
        let after = t[i].after as int;
        if kind == "import_specifier"@ || kind == "export_specifier"@ {
            let more = named_more(c, specifier_name(t, i), all_type || has_token(t, i, "type"@));
            if i < after <= t.len() {
                clause_from(t, after, end, all_type, more)
            } else {
                more
            }
        } else if kind == "namespace_import"@ || kind == "namespace_export"@ {
            let more = ClauseView { glob: true, ..c };
            if i < after <= t.len() {
                clause_from(t, after, end, all_type, more)
            } else {
                more
            }
        } else if default_import(t, i) {
            let more = named_more(c, t[i].text, all_type);
            if i < after <= t.len() {
                clause_from(t, after, end, all_type, more)
            } else {
                more
            }
        } else if kind == "string"@ {
            if i < after <= t.len() {
                clause_from(t, after, end, all_type, c)
            } else {
                c
            }
        } else {
            clause_from(t, i + 1, end, all_type, c)
        }
    }
}

/// What an import or re-export names. `export * from './x'`: the star is an anonymous token with no
/// named node around it.
pub open spec fn clause_of(t: Nodes, i: int) -> ClauseView {
    clause_from(
        t,
        i,
        t[i].after as int,
        has_token(t, i, "type"@),
        ClauseView { value: Seq::empty(), types: Seq::empty(), glob: has_token(t, i, "*"@) },
    )
}

/// The imports of a clause: names split by whether they survive to runtime, so that `import { type
/// A, b }` is one type-only import and one value import of the same file.
pub open spec fn clause_imports(spec: Chars, c: ClauseView, all_type: bool, line: usize) -> Seq<RawImportView> {
    let bare = c.value.len() == 0 && c.types.len() == 0 && !c.glob;
    if all_type && !c.glob {
        seq![plain(spec, c.types, false, EdgeKind::TypeOnly, line)]
    } else {
        let types = if c.types.len() > 0 {
            seq![plain(spec, c.types, false, EdgeKind::TypeOnly, line)]
        } else {
            Seq::empty()
        };
        if c.value.len() > 0 || c.glob || bare {
            types.push(
                plain(
                    spec,
                    if bare {
                        seq![spec]
                    } else {
                        c.value
                    },
                    c.glob,
                    if all_type {
                        EdgeKind::TypeOnly
                    } else {
                        EdgeKind::Use
                    },
                    line,
                ),
            )
        } else {
            types
        }
    }
}

/// The module a `require` or `import` call names.
pub open spec fn required(t: Nodes, i: int) -> Option<Chars> {
    match (child_of(t, i, "function"@), child_of(t, i, "arguments"@)) {
        (Some(f), Some(a)) => if t[f as int].text == "require"@ || t[f as int].text == "import"@ {
            match named_at(t, a as int, 0) {
                Some(x) => if t[x as int].kind == "string"@ {
                    Some(unquoted(t[x as int].text))
                } else {
                    None
                },
                None => None,
            }
        } else {
            None
        },
        _ => None,
    }
}

/// The imports a JavaScript or TypeScript node states.
pub open spec fn js_at(t: Nodes, i: int) -> Seq<RawImportView> {
    if t[i].kind == "import_statement"@ || t[i].kind == "export_statement"@ {
        match child_of(t, i, "source"@) {
            None => Seq::empty(),
            Some(s) => clause_imports(
                unquoted(t[s as int].text),
                clause_of(t, i),
                has_token(t, i, "type"@),
                t[i].line,
            ),
        }
    } else if t[i].kind == "call_expression"@ {
        match required(t, i) {
            Some(spec) => seq![plain(spec, seq![spec], false, EdgeKind::Use, t[i].line)],
            None => Seq::empty(),
        }
    } else {
        Seq::empty()
    }
}

/// What an import clause names.
pub struct Clause {
    pub value: Vec<String>,
    pub types: Vec<String>,
    pub glob: bool,
}

impl View for Clause {
    type V = ClauseView;

    open spec fn view(&self) -> ClauseView {
        ClauseView { value: self.value.deep_view(), types: self.types.deep_view(), glob: self.glob }
    }
}

fn name_more(c: &mut Clause, name: String, as_type: bool)
    ensures
        final(c)@ == named_more(old(c)@, name@, as_type),
{
    if as_type {
        put(&mut c.types, name);
    } else {
        put(&mut c.value, name);
    }
}

fn read_clause(t: &SyntaxTree, n: usize, all_type: bool) -> (c: Clause)
    requires
        t.ok(),
        n < t@.len(),
        all_type == has_token(t@, n as int, "type"@),
    ensures
        c@ == clause_of(t@, n as int),
{
    assert(t@[n as int] == t.nodes@[n as int].deep_view());
    assert(crate::tree::node_ok(t@, n as int));
    let end: usize = t.nodes[n].after;
    let mut c = Clause { value: Vec::new(), types: Vec::new(), glob: token_in(t, n, "*") };
    assert(c.value.deep_view() =~= Seq::<Chars>::empty());
    assert(c.types.deep_view() =~= Seq::<Chars>::empty());
    let ghost want = clause_of(t@, n as int);
    let mut i: usize = n;
    while i < end
        invariant
            i <= t@.len(),
            end <= t@.len(),
            t.ok(),
            want == clause_from(t@, i as int, end as int, all_type, c@),
        decreases t@.len() - i,
    {
        assert(crate::tree::node_ok(t@, i as int));
        assert(t@[i as int] == t.nodes@[i as int].deep_view());
        let after: usize = t.nodes[i].after;
        if t.is(i, "import_specifier") || t.is(i, "export_specifier") {
            let name = match t.child(i, "name") {
                Some(x) => t.text(x).to_owned(),
                None => String::new(),
            };
            let as_type = all_type || token_in(t, i, "type");
            name_more(&mut c, name, as_type);
            i = after;
        } else if t.is(i, "namespace_import") || t.is(i, "namespace_export") {
            c.glob = true;
            i = after;
        } else {
            let default = t.is(i, "identifier") && (match t.parent(i) {
                Some(p) => t.is(p, "import_clause"),
                None => false,
            });
            if default {
                name_more(&mut c, t.text(i).to_owned(), all_type);
                i = after;
            } else if t.is(i, "string") {
                i = after;
            } else {
                i = i + 1;
            }
        }
    }
    c
}

fn add_clause(spec: String, c: Clause, all_type: bool, line: usize, out: &mut Vec<RawImport>)
    ensures
        final(out).deep_view() == old(out).deep_view() + clause_imports(spec@, c@, all_type, line),
{
    let ghost was = out.deep_view();
    let ghost cv = c@;
    assert(c.value.len() == cv.value.len());
    assert(c.types.len() == cv.types.len());
    let bare = c.value.len() == 0 && c.types.len() == 0 && !c.glob;
    if all_type && !c.glob {
        let r = RawImport::new(spec, c.types, false, EdgeKind::TypeOnly, line);
        let ghost rv = r.deep_view();
        put(out, r);
        assert(was.push(rv) =~= was + seq![rv]);
        return;
    }
    let ghost mut types: Seq<RawImportView> = Seq::empty();
    assert(was + types =~= was);
    if c.types.len() > 0 {
        let r = RawImport::new(spec.as_str().to_owned(), c.types, false, EdgeKind::TypeOnly, line);
        let ghost rv = r.deep_view();
        put(out, r);
        proof {
            types = seq![rv];
        }
        assert(was.push(rv) =~= was + types);
    }
    if c.value.len() > 0 || c.glob || bare {
        let kind = if all_type {
            EdgeKind::TypeOnly
        } else {
            EdgeKind::Use
        };
        let syms = if bare {
            one_name(spec.as_str())
        } else {
            c.value
        };
        let r = RawImport::new(spec, syms, c.glob, kind, line);
        let ghost rv = r.deep_view();
        put(out, r);
        assert((was + types).push(rv) =~= was + types.push(rv));
    }
}

fn find_required(t: &SyntaxTree, i: usize) -> (r: Option<String>)
    requires
        t.ok(),
        i < t@.len(),
    ensures
        r.deep_view() == required(t@, i as int),
{
    match (t.child(i, "function"), t.child(i, "arguments")) {
        (Some(f), Some(a)) => if same(t.text(f), "require") || same(t.text(f), "import") {
            match t.named_child(a, 0) {
                Some(x) => if t.is(x, "string") {
                    Some(unquote(t.text(x)))
                } else {
                    None
                },
                None => None,
            }
        } else {
            None
        },
        _ => None,
    }
}

/// Adds the imports a JavaScript or TypeScript node states.
pub fn extract_js(t: &SyntaxTree, i: usize, out: &mut Vec<RawImport>)
    requires
        t.ok(),
        i < t@.len(),
    ensures
        final(out).deep_view() == old(out).deep_view() + js_at(t@, i as int),
{
    assert(t@[i as int] == t.nodes@[i as int].deep_view());
    let ghost was = out.deep_view();
    assert(was + Seq::<RawImportView>::empty() =~= was);
    let line = t.nodes[i].line;
    if t.is(i, "import_statement") || t.is(i, "export_statement") {
        if let Some(s) = t.child(i, "source") {
            let all_type = token_in(t, i, "type");
            let c = read_clause(t, i, all_type);
            add_clause(unquote(t.text(s)), c, all_type, line, out);
        }
    } else if t.is(i, "call_expression") {
        if let Some(spec) = find_required(t, i) {
            let syms = one_name(spec.as_str());
            let r = RawImport::new(spec, syms, false, EdgeKind::Use, line);
            let ghost rv = r.deep_view();
            put(out, r);
            assert(was.push(rv) =~= was + seq![rv]);
        }
    }
}

// ---------- Rust ----------

/// A path with what stands before it.
pub open spec fn prefixed(prefix: Chars, p: Chars) -> Chars {
    if prefix.len() == 0 {
        p
    } else {
        prefix + "::"@ + p
    }
}

/// The last name of a path.
pub open spec fn leaf_of(p: Chars) -> Chars {
    crate::text::after_last(p, "::"@)
}

/// The paths a `use` tree flattens to, each with the leaf name it imports (none for a wildcard):
/// `crate::{a::X, b::{self, Y}}` → `crate::a::X`, `crate::b`, `crate::b::Y`.
pub open spec fn use_paths_of(t: Nodes, n: int, prefix: Chars) -> Seq<(Chars, Option<Chars>)>
    decreases t.len() - n, named_kids(t, n).len() + 1,
{
    if n < 0 || n >= t.len() {
        Seq::empty()
    } else if t[n].kind == "scoped_use_list"@ {
        let inner = match child_of(t, n, "path"@) {
            Some(p) => prefixed(prefix, t[p as int].text),
            None => prefix,
        };
        match child_of(t, n, "list"@) {
            Some(l) => if n < l < t.len() {
                use_paths_of(t, l as int, inner)
            } else {
                Seq::empty()
            },
            None => Seq::empty(),
        }
    } else if t[n].kind == "use_list"@ {
        use_list_from(t, n, 0, prefix)
    } else if t[n].kind == "use_as_clause"@ {
        match child_of(t, n, "path"@) {
            Some(p) => if n < p < t.len() {
                use_paths_of(t, p as int, prefix)
            } else {
                Seq::empty()
            },
            None => Seq::empty(),
        }
    } else if t[n].kind == "use_wildcard"@ {
        match named_at(t, n, 0) {
            Some(p) => seq![(prefixed(prefix, t[p as int].text), None::<Chars>)],
            None => if prefix.len() > 0 {
                seq![(prefix, None::<Chars>)]
            } else {
                Seq::empty()
            },
        }
    } else if t[n].kind == "self"@ && prefix.len() > 0 {
        seq![(prefix, Some(leaf_of(prefix)))]
    } else {
        let p = prefixed(prefix, t[n].text);
        seq![(p, Some(leaf_of(p)))]
    }
}

/// The paths of a list from its child `k` on.
pub open spec fn use_list_from(t: Nodes, n: int, k: int, prefix: Chars) -> Seq<(Chars, Option<Chars>)>
    decreases t.len() - n, named_kids(t, n).len() - k,
{
    if n < 0 || n >= t.len() || k < 0 || k >= named_kids(t, n).len() {
        Seq::empty()
    } else {
        let c = named_kids(t, n)[k] as int;
        (if n < c < t.len() {
            use_paths_of(t, c, prefix)
        } else {
            Seq::empty()
        }) + use_list_from(t, n, k + 1, prefix)
    }
}

/// Text after which a leaf name stands.
fn leaf(p: &str) -> (r: String)
    ensures
        r@ == leaf_of(p@),
{
    crate::text::last_piece(p, "::")
}

fn with_prefix(prefix: &str, p: &str) -> (r: String)
    ensures
        r@ == prefixed(prefix@, p@),
{
    if prefix.is_empty() {
        p.to_owned()
    } else {
        plus(plus(prefix.to_owned(), "::"), p)
    }
}

/// Adds the paths a `use` tree flattens to.
pub fn use_paths(t: &SyntaxTree, n: usize, prefix: &str, out: &mut Vec<(String, Option<String>)>)
    requires
        t.ok(),
        n < t@.len(),
    ensures
        final(out).deep_view() == old(out).deep_view() + use_paths_of(t@, n as int, prefix@),
    decreases t@.len() - n,
{
    let ghost was = out.deep_view();
    assert(was + Seq::<(Chars, Option<Chars>)>::empty() =~= was);
    if t.is(n, "scoped_use_list") {
        let inner = match t.child(n, "path") {
            Some(p) => with_prefix(prefix, t.text(p)),
            None => prefix.to_owned(),
        };
        if let Some(l) = t.child(n, "list") {
            use_paths(t, l, inner.as_str(), out);
        }
    } else if t.is(n, "use_list") {
        let kids = t.named_children(n);
        proof {
            crate::tree::named_kids_are_later(t@, n as int);
        }
        let ghost all = use_list_from(t@, n as int, 0, prefix@);
        let mut k: usize = 0;
        while k < kids.len()
            invariant
                k <= kids.len(),
                t.ok(),
                n < t@.len(),
                kids@ == named_kids(t@, n as int),
                forall|j: int| 0 <= j < kids@.len() ==> n < #[trigger] kids@[j] < t@.len(),
                was + all == out.deep_view() + use_list_from(t@, n as int, k as int, prefix@),
            decreases kids.len() - k,
        {
            let ghost done = out.deep_view();
            let c: usize = kids[k];
            assert(n < kids@[k as int] < t@.len());
            use_paths(t, c, prefix, out);
            let ghost inner = use_paths_of(t@, c as int, prefix@);
            let ghost rest = use_list_from(t@, n as int, k + 1, prefix@);
            assert(done + (inner + rest) =~= out.deep_view() + rest);
            k = k + 1;
        }
        let ghost now = out.deep_view();
        assert(now + Seq::<(Chars, Option<Chars>)>::empty() =~= now);
    } else if t.is(n, "use_as_clause") {
        if let Some(p) = t.child(n, "path") {
            use_paths(t, p, prefix, out);
        }
    } else if t.is(n, "use_wildcard") {
        match t.named_child(n, 0) {
            Some(p) => {
                let r = (with_prefix(prefix, t.text(p)), None);
                let ghost rv = r.deep_view();
                put(out, r);
                assert(was.push(rv) =~= was + seq![rv]);
            },
            None => {
                if !prefix.is_empty() {
                    let r = (prefix.to_owned(), None);
                    let ghost rv = r.deep_view();
                    put(out, r);
                    assert(was.push(rv) =~= was + seq![rv]);
                }
            },
        }
    } else if t.is(n, "self") && !prefix.is_empty() {
        let r = (prefix.to_owned(), Some(leaf(prefix)));
        let ghost rv = r.deep_view();
        put(out, r);
        assert(was.push(rv) =~= was + seq![rv]);
    } else {
        let p = with_prefix(prefix, t.text(n));
        let l = leaf(p.as_str());
        let r = (p, Some(l));
        let ghost rv = r.deep_view();
        put(out, r);
        assert(was.push(rv) =~= was + seq![rv]);
    }
}

/// The first segment.
pub open spec fn first_is(segs: Seq<Chars>, s: Chars) -> bool {
    segs.len() > 0 && segs[0] == s
}

/// Segments `d` modules up: each level takes a `super`.
pub open spec fn rebased(segs: Seq<Chars>, d: nat) -> Option<Chars>
    decreases d,
{
    if d == 0 {
        Some(
            joined(
                if first_is(segs, "super"@) || first_is(segs, "self"@) {
                    segs
                } else {
                    seq!["self"@] + segs
                },
                "::"@,
            ),
        )
    } else if first_is(segs, "super"@) {
        rebased(segs.skip(1), (d - 1) as nat)
    } else {
        None
    }
}

/// A path written `depth` inline modules deep, as the file's own module would write it.
pub open spec fn rebased_path(spec: Chars, depth: nat) -> Option<Chars> {
    let segs = parts(spec, "::"@);
    if depth == 0 || first_is(segs, "crate"@) {
        Some(spec)
    } else {
        rebased(segs, depth)
    }
}

/// Rewrite a `use` path written `depth` inline modules deep so it is relative to the file's own
/// module. `super::x` one level down is `self::x`; a path that never leaves the inline modules
/// names nothing on disk.
pub fn rebase_inline(spec: &str, depth: usize) -> (r: Option<String>)
    ensures
        r.deep_view() == rebased_path(spec@, depth as nat),
{
    if depth == 0 {
        return Some(spec.to_owned());
    }
    proof {
        reveal_strlit("::");
    }
    let segs = split_on(spec, "::");
    let ghost view = segs.deep_view();
    assert(view[0] == segs@[0]@);
    if same(segs[0].as_str(), "crate") {
        return Some(spec.to_owned());
    }
    let mut d: usize = depth;
    let mut k: usize = 0;
    assert(view.skip(0) =~= view);
    while d > 0 && k < segs.len() && same(segs[k].as_str(), "super")
        invariant
            k <= segs.len(),
            d <= depth,
            view == segs.deep_view(),
            rebased(view, depth as nat) == rebased(view.skip(k as int), d as nat),
        decreases d,
    {
        assert(view[k as int] == segs@[k as int]@);
        assert(view.skip(k as int)[0] == view[k as int]);
        assert(view.skip(k as int).skip(1) =~= view.skip(k + 1));
        d = d - 1;
        k = k + 1;
    }
    let ghost left = view.skip(k as int);
    assert(k < segs.len() ==> left[0] == segs@[k as int]@);
    assert(left.len() == segs.len() - k);
    if d > 0 {
        return None;
    }
    let mut rest: Vec<String> = Vec::new();
    assert(rest.deep_view() =~= Seq::<Chars>::empty());
    let kept = k < segs.len() && (same(segs[k].as_str(), "super") || same(segs[k].as_str(), "self"));
    let ghost head: Seq<Chars> = if kept {
        Seq::empty()
    } else {
        seq!["self"@]
    };
    if !kept {
        put(&mut rest, "self".to_owned());
    }
    assert(rest.deep_view() =~= head + left.take(0));
    let mut j: usize = k;
    while j < segs.len()
        invariant
            k <= j <= segs.len(),
            view == segs.deep_view(),
            left == view.skip(k as int),
            rest.deep_view() == head + left.take(j - k),
        decreases segs.len() - j,
    {
        assert(left[j - k] == segs@[j as int]@);
        put(&mut rest, segs[j].as_str().to_owned());
        assert((head + left.take(j - k)).push(left[j - k]) =~= head + left.take(j + 1 - k));
        j = j + 1;
    }
    assert(left.take(left.len() as int) =~= left);
    assert(Seq::<Chars>::empty() + left =~= left);
    Some(join(&rest, "::"))
}

/// How many inline modules a node stands in.
pub open spec fn mod_depth(t: Nodes, i: int) -> nat
    decreases i,
{
    if i < 0 || i >= t.len() {
        0
    } else {
        match t[i].parent {
            Some(p) => if p < i {
                mod_depth(t, p as int) + (if t[p as int].kind == "mod_item"@ {
                    1nat
                } else {
                    0
                })
            } else {
                0
            },
            None => 0,
        }
    }
}

fn depth_of(t: &SyntaxTree, i: usize) -> (n: usize)
    requires
        t.ok(),
        i < t@.len(),
    ensures
        n == mod_depth(t@, i as int),
        n <= i,
    decreases i,
{
    match t.parent(i) {
        Some(p) => {
            let n: usize = depth_of(t, p);
            if t.is(p, "mod_item") {
                n + 1
            } else {
                n
            }
        },
        None => 0,
    }
}

/// A path into this crate.
pub open spec fn local(p: Chars) -> bool {
    p == "crate"@ || p == "super"@ || p == "self"@ || starts(p, "crate::"@) || starts(p, "super::"@) || starts(p, "self::"@)
}

/// The imports of the paths from `k` on.
pub open spec fn rust_uses(paths: Seq<(Chars, Option<Chars>)>, depth: nat, line: usize, k: int) -> Seq<RawImportView>
    decreases paths.len() - k,
{
    if k < 0 || k >= paths.len() {
        Seq::empty()
    } else {
        let rest = rust_uses(paths, depth, line, k + 1);
        match rebased_path(paths[k].0, depth) {
            Some(p) => if local(p) {
                seq![
                    plain(
                        p,
                        match paths[k].1 {
                            Some(name) => seq![name],
                            None => Seq::empty(),
                        },
                        paths[k].1 is None,
                        EdgeKind::Use,
                        line,
                    ),
                ] + rest
            } else {
                rest
            },
            None => rest,
        }
    }
}

/// The imports a Rust node states.
pub open spec fn rust_at(t: Nodes, i: int) -> Seq<RawImportView> {
    if t[i].kind == "mod_item"@ && child_of(t, i, "body"@) is None {
        match child_of(t, i, "name"@) {
            Some(n) => seq![
                plain("mod:"@ + t[n as int].text, seq![t[n as int].text], false, EdgeKind::Mod, t[i].line),
            ],
            None => Seq::empty(),
        }
    } else if t[i].kind == "use_declaration"@ {
        match child_of(t, i, "argument"@) {
            Some(a) => rust_uses(use_paths_of(t, a as int, Seq::empty()), mod_depth(t, i), t[i].line, 0),
            None => Seq::empty(),
        }
    } else {
        Seq::empty()
    }
}

fn add_uses(paths: &Vec<(String, Option<String>)>, depth: usize, line: usize, out: &mut Vec<RawImport>)
    ensures
        final(out).deep_view() == old(out).deep_view() + rust_uses(paths.deep_view(), depth as nat, line, 0),
{
    let ghost view = paths.deep_view();
    let ghost start = out.deep_view();
    let ghost all = rust_uses(view, depth as nat, line, 0);
    let mut k: usize = 0;
    while k < paths.len()
        invariant
            k <= paths.len(),
            view == paths.deep_view(),
            start + all == out.deep_view() + rust_uses(view, depth as nat, line, k as int),
        decreases paths.len() - k,
    {
        assert(view[k as int] == paths@[k as int].deep_view());
        let ghost was = out.deep_view();
        let ghost rest = rust_uses(view, depth as nat, line, k + 1);
        if let Some(p) = rebase_inline(paths[k].0.as_str(), depth) {
            let s = p.as_str();
            if same(s, "crate") || same(s, "super") || same(s, "self") || starts_with(s, "crate::") || starts_with(
                s,
                "super::",
            ) || starts_with(s, "self::") {
                let r = match &paths[k].1 {
                    Some(name) => RawImport::new(p, one_name(name.as_str()), false, EdgeKind::Use, line),
                    None => {
                        let none: Vec<String> = Vec::new();
                        assert(none.deep_view() =~= Seq::<Chars>::empty());
                        RawImport::new(p, none, true, EdgeKind::Use, line)
                    },
                };
                let ghost rv = r.deep_view();
                put(out, r);
                assert(was + (seq![rv] + rest) =~= out.deep_view() + rest);
            }
        }
        k = k + 1;
    }
    let ghost now = out.deep_view();
    assert(now + Seq::<RawImportView>::empty() =~= now);
}

/// Adds the imports a Rust node states.
pub fn extract_rust(t: &SyntaxTree, i: usize, out: &mut Vec<RawImport>)
    requires
        t.ok(),
        i < t@.len(),
    ensures
        final(out).deep_view() == old(out).deep_view() + rust_at(t@, i as int),
{
    assert(t@[i as int] == t.nodes@[i as int].deep_view());
    let ghost was = out.deep_view();
    assert(was + Seq::<RawImportView>::empty() =~= was);
    let line = t.nodes[i].line;
    if t.is(i, "mod_item") && t.child(i, "body").is_none() {
        if let Some(n) = t.child(i, "name") {
            let name = t.text(n);
            let r = RawImport::new(plus("mod:".to_owned(), name), one_name(name), false, EdgeKind::Mod, line);
            let ghost rv = r.deep_view();
            put(out, r);
            assert(was.push(rv) =~= was + seq![rv]);
        }
    } else if t.is(i, "use_declaration") {
        if let Some(a) = t.child(i, "argument") {
            // Inside `mod tests { … }` (an inline module), `super` is the file's own module, not
            // the parent file.
            let depth = depth_of(t, i);
            let mut paths: Vec<(String, Option<String>)> = Vec::new();
            let none = String::new();
            assert(paths.deep_view() =~= Seq::<(Chars, Option<Chars>)>::empty());
            assert(none@ =~= Seq::<char>::empty());
            use_paths(t, a, none.as_str(), &mut paths);
            assert(paths.deep_view() =~= use_paths_of(t@, a as int, Seq::empty()));
            add_uses(&paths, depth, line, out);
        }
    }
}

// ---------- files ----------

/// The imports a node states.
pub open spec fn imports_at(t: Nodes, i: int, lang: Language) -> Seq<RawImportView> {
    match lang {
        Language::Python => python_at(t, i),
        Language::Rust => rust_at(t, i),
        _ => js_at(t, i),
    }
}

/// The imports the first `n` nodes state.
pub open spec fn imports_upto(t: Nodes, n: int, lang: Language) -> Seq<RawImportView>
    decreases n,
{
    if n <= 0 {
        Seq::empty()
    } else {
        imports_upto(t, n - 1, lang) + imports_at(t, n - 1, lang)
    }
}

/// The imports a file states.
pub open spec fn imports_of(root: Option<Nodes>, lang: Language) -> Seq<RawImportView> {
    match root {
        Some(t) => imports_upto(t, t.len() as int, lang),
        None => Seq::empty(),
    }
}

/// The imports a parsed file states.
pub fn extract_tree(t: &SyntaxTree, lang: Language) -> (out: Vec<RawImport>)
    requires
        t.ok(),
    ensures
        out.deep_view() == imports_upto(t@, t@.len() as int, lang),
{
    let mut out: Vec<RawImport> = Vec::new();
    assert(out.deep_view() =~= Seq::<RawImportView>::empty());
    let n: usize = t.len();
    let mut i: usize = 0;
    while i < n
        invariant
            i <= n == t@.len(),
            t.ok(),
            out.deep_view() == imports_upto(t@, i as int, lang),
        decreases n - i,
    {
        match lang {
            Language::Python => extract_python(t, i, &mut out),
            Language::Rust => extract_rust(t, i, &mut out),
            _ => extract_js(t, i, &mut out),
        }
        i = i + 1;
    }
    out
}

} // verus!
