//! The walk over one file's tree.

use std::collections::HashSet;
use vstd::prelude::*;

use crate::config::Dead;
use crate::lang::Language;
use crate::regions::{within, TestRegion};
use crate::text::{
    after_last, alphanumeric, around_first, ascii_alnum, ascii_digit, ascii_lower, ascii_upper, chars, contains, list_has,
    holds, is_alnum, is_ascii_alnum, is_ascii_digit, is_ascii_lower, is_ascii_upper, last_piece, pieces, plus, put, same,
    slice, split, split_once, starts, starts_with, strip_start, strip_suffix, stripped_start, trim, trimmed,
    without_suffix, words, words_of, Chars,
};
use crate::tree::{before_of, child_of, is_kind, named_at, named_kids, node_ok, Nodes, SyntaxTree};

verus! {

broadcast use vstd::std_specs::hash::group_hash_axioms;

/// How far a definition can be seen.
#[derive(Debug, Clone, Copy, PartialEq, Eq, Structural)]
pub enum Visibility {
    /// Rust `pub`, TS `export`, Python without a leading `_`.
    Public,
    /// Rust `pub(crate)`, `pub(super)`, `pub(in …)`.
    Restricted,
    Private,
}

/// One definition in the index: an item of any visibility, in production or test context.
pub struct Def {
    /// The bare name references are keyed by.
    pub name: String,
    /// `Git::is_ignored` for a method, the name otherwise.
    pub qualified: String,
    /// How a reason names it: `pub fn Git::is_ignored`, `export function f`, `def f`.
    pub display: String,
    /// `fn`, `method`, `struct`, `enum`, `union`, `trait`, `type`, `const`, `static`, `mod`,
    /// `class`, `interface`, `var`.
    pub kind: &'static str,
    pub file: String,
    pub start_line: usize,
    pub end_line: usize,
    pub visibility: Visibility,
    /// Defined in test context.
    pub in_test: bool,
    /// Why it can never be a candidate: `trait impl`, `#[test]`, `@pytest.fixture`, …
    pub exempt: Option<String>,
}

/// A [`Def`] by its contents.
pub struct DefView {
    pub name: Chars,
    pub qualified: Chars,
    pub display: Chars,
    pub kind: Chars,
    pub file: Chars,
    pub start_line: usize,
    pub end_line: usize,
    pub visibility: Visibility,
    pub in_test: bool,
    pub exempt: Option<Chars>,
}

impl DeepView for Def {
    type V = DefView;

    open spec fn deep_view(&self) -> DefView {
        DefView {
            name: self.name@,
            qualified: self.qualified@,
            display: self.display@,
            kind: self.kind@,
            file: self.file@,
            start_line: self.start_line,
            end_line: self.end_line,
            visibility: self.visibility,
            in_test: self.in_test,
            exempt: self.exempt.deep_view(),
        }
    }
}

impl Def {
    /// How many lines it spans.
    pub fn lines(&self) -> (n: usize)
        requires
            1 <= self.start_line <= self.end_line,
        ensures
            n == self.end_line - self.start_line + 1,
    {
        self.end_line - self.start_line + 1
    }
}

/// A struct or enum with the attributes that decide whether its members are checked.
pub struct TypeDef {
    pub name: String,
    pub is_enum: bool,
    pub line: usize,
    pub derives: Vec<String>,
    /// Attribute names other than `derive` (`repr`, `non_exhaustive`, `serde`).
    pub attrs: Vec<String>,
    pub in_test: bool,
}

/// A [`TypeDef`] by its contents.
pub struct TypeView {
    pub name: Chars,
    pub is_enum: bool,
    pub line: usize,
    pub derives: Seq<Chars>,
    pub attrs: Seq<Chars>,
    pub in_test: bool,
}

impl DeepView for TypeDef {
    type V = TypeView;

    open spec fn deep_view(&self) -> TypeView {
        TypeView {
            name: self.name@,
            is_enum: self.is_enum,
            line: self.line,
            derives: self.derives.deep_view(),
            attrs: self.attrs.deep_view(),
            in_test: self.in_test,
        }
    }
}

/// A struct field or enum variant, by the index of its type.
pub struct MemberDef {
    pub type_idx: usize,
    pub name: String,
    pub line: usize,
}

/// A [`MemberDef`] by its contents.
pub struct MemberView {
    pub type_idx: usize,
    pub name: Chars,
    pub line: usize,
}

impl DeepView for MemberDef {
    type V = MemberView;

    open spec fn deep_view(&self) -> MemberView {
        MemberView { type_idx: self.type_idx, name: self.name@, line: self.line }
    }
}

/// What a walk has collected.
pub struct Facts {
    pub defs: Vec<Def>,
    /// Identifier references by bare name, each with whether it sits in test context.
    pub mentions: Vec<(String, bool)>,
    /// Words of doc comments and docstrings.
    pub docs: Vec<String>,
    pub types: Vec<TypeDef>,
    pub fields: Vec<MemberDef>,
    pub variants: Vec<MemberDef>,
    /// Field reads, by name.
    pub reads: Vec<String>,
    /// Field writes, by name and line.
    pub writes: Vec<(String, usize)>,
    /// Variant constructions, by name.
    pub ctors: Vec<String>,
    /// Variant mentions in patterns, by name and line.
    pub handled: Vec<(String, usize)>,
    /// Last segments of `use …::*` paths, at any scope.
    pub wildcards: Vec<String>,
    /// `(type, trait)` of every `impl Trait for Type`, names without generics.
    pub impls: Vec<(String, String)>,
    /// Start bytes of name nodes that are declarations, never references.
    pub skip: HashSet<usize>,
}

/// [`Facts`] by their contents.
pub struct FactsView {
    pub defs: Seq<DefView>,
    pub mentions: Seq<(Chars, bool)>,
    pub docs: Seq<Chars>,
    pub types: Seq<TypeView>,
    pub fields: Seq<MemberView>,
    pub variants: Seq<MemberView>,
    pub reads: Seq<Chars>,
    pub writes: Seq<(Chars, usize)>,
    pub ctors: Seq<Chars>,
    pub handled: Seq<(Chars, usize)>,
    pub wildcards: Seq<Chars>,
    pub impls: Seq<(Chars, Chars)>,
    pub skip: Set<usize>,
}

impl View for Facts {
    type V = FactsView;

    open spec fn view(&self) -> FactsView {
        FactsView {
            defs: self.defs.deep_view(),
            mentions: self.mentions.deep_view(),
            docs: self.docs.deep_view(),
            types: self.types.deep_view(),
            fields: self.fields.deep_view(),
            variants: self.variants.deep_view(),
            reads: self.reads.deep_view(),
            writes: self.writes.deep_view(),
            ctors: self.ctors.deep_view(),
            handled: self.handled.deep_view(),
            wildcards: self.wildcards.deep_view(),
            impls: self.impls.deep_view(),
            skip: self.skip@,
        }
    }
}

/// Nothing collected.
pub open spec fn no_facts() -> FactsView {
    FactsView {
        defs: Seq::empty(),
        mentions: Seq::empty(),
        docs: Seq::empty(),
        types: Seq::empty(),
        fields: Seq::empty(),
        variants: Seq::empty(),
        reads: Seq::empty(),
        writes: Seq::empty(),
        ctors: Seq::empty(),
        handled: Seq::empty(),
        wildcards: Seq::empty(),
        impls: Seq::empty(),
        skip: Set::empty(),
    }
}

/// Where a node stands.
#[derive(Clone, Copy)]
pub struct Ctx {
    pub in_test: bool,
    pub in_pattern: bool,
    pub in_tt: bool,
    /// Rust `use_declaration`, TS `import_statement`.
    pub in_import: bool,
    /// Python docstring.
    pub in_doc: bool,
    /// The `left:` of an assignment (direct child only).
    pub assign_left: bool,
    /// TS: the `declaration:` of an `export_statement` (direct child only).
    pub exported: bool,
    pub trait_impl: bool,
    /// The node that names the impl, trait or class the item belongs to.
    pub owner: Option<usize>,
    /// The struct or enum being declared (index into the types).
    pub type_idx: Option<usize>,
    pub parent: Option<usize>,
}

/// The context of a root.
pub open spec fn top_ctx(in_test: bool) -> Ctx {
    Ctx {
        in_test,
        in_pattern: false,
        in_tt: false,
        in_import: false,
        in_doc: false,
        assign_left: false,
        exported: false,
        trait_impl: false,
        owner: None,
        type_idx: None,
        parent: None,
    }
}

/// What a walk reads besides the tree.
pub struct Setting<'c> {
    pub cfg: &'c Dead,
    pub lang: Language,
    pub path: &'c str,
}

// ---------- strings ----------

/// All characters from `i` on are letters, digits, `_` or `$`.
pub open spec fn ident_chars(s: Chars) -> bool {
    forall|i: int| 0 <= i < s.len() ==> alphanumeric(#[trigger] s[i]) || s[i] == '_' || s[i] == '$'
}

/// All characters are ASCII digits.
pub open spec fn all_digits(s: Chars) -> bool {
    forall|i: int| 0 <= i < s.len() ==> ascii_digit(#[trigger] s[i])
}

/// Is `s` shaped like an identifier?
pub open spec fn ident(s: Chars) -> bool {
    s.len() > 0 && ident_chars(s) && !all_digits(s)
}

/// Is `s` shaped like an identifier?
pub fn is_ident(s: &str) -> (r: bool)
    ensures
        r == ident(s@),
{
    let v = chars(s);
    let mut digits: bool = true;
    let mut i: usize = 0;
    while i < v.len()
        invariant
            i <= v.len(),
            v@ == s@,
            forall|k: int| 0 <= k < i ==> alphanumeric(#[trigger] s@[k]) || s@[k] == '_' || s@[k] == '$',
            digits <==> forall|k: int| 0 <= k < i ==> ascii_digit(#[trigger] s@[k]),
        decreases v.len() - i,
    {
        let c: char = v[i];
        if !(is_alnum(c) || c == '_' || c == '$') {
            assert(!ident_chars(s@)) by {
                assert(s@[i as int] == c);
            }
            return false;
        }
        digits = digits && is_ascii_digit(c);
        i = i + 1;
    }
    v.len() > 0 && !digits
}

/// The identifier-shaped ones of `list`, trimmed.
pub open spec fn idents_of(list: Seq<Chars>) -> Seq<Chars>
    decreases list.len(),
{
    if list.len() == 0 {
        Seq::empty()
    } else if ident(trimmed(list.last())) {
        idents_of(list.drop_last()).push(trimmed(list.last()))
    } else {
        idents_of(list.drop_last())
    }
}

/// The dot- or colon-separated segments of `s` that are identifier-shaped.
pub open spec fn segments(s: Chars) -> Seq<Chars> {
    idents_of(pieces(s, ".:"@))
}

/// The dot- or colon-separated segments of `s` that are identifier-shaped
/// (`'app.apps.AppConfig'`, `'pkg.mod:func'`).
pub fn string_segments(s: &str) -> (out: Vec<String>)
    ensures
        out.deep_view() == segments(s@),
{
    let parts = split(s, ".:");
    let ghost view = parts.deep_view();
    let mut out: Vec<String> = Vec::new();
    let mut i: usize = 0;
    assert(view.take(0) =~= Seq::<Chars>::empty());
    assert(out.deep_view() =~= Seq::<Chars>::empty());
    while i < parts.len()
        invariant
            i <= parts.len(),
            view == parts.deep_view(),
            out.deep_view() == idents_of(view.take(i as int)),
        decreases parts.len() - i,
    {
        assert(view.take(i + 1).drop_last() =~= view.take(i as int));
        assert(view[i as int] == parts@[i as int]@);
        let seg = trim(parts[i].as_str());
        if is_ident(seg.as_str()) {
            put(&mut out, seg);
        }
        i = i + 1;
    }
    assert(view.take(view.len() as int) =~= view);
    out
}

/// A character of a format capture's name.
pub open spec fn capture_char(c: char) -> bool {
    ascii_alnum(c) || c == '_'
}

/// The end of the run of capture characters from `j` on.
pub open spec fn capture_end(s: Chars, j: int) -> int
    decreases s.len() - j,
{
    if 0 <= j < s.len() && capture_char(s[j]) {
        capture_end(s, j + 1)
    } else {
        j
    }
}

/// The format captures of `s` from `i` on.
pub open spec fn captures_from(s: Chars, i: int) -> Seq<Chars>
    decreases s.len() - i,
    when 0 <= i <= s.len()
    via captures_from_decreases
{
    if i >= s.len() {
        Seq::empty()
    } else if s[i] != '{' {
        captures_from(s, i + 1)
    } else if i + 1 < s.len() && s[i + 1] == '{' {
        captures_from(s, i + 2)
    } else {
        let j = capture_end(s, i + 1);
        let rest = captures_from(s, j);
        if j > i + 1 && j < s.len() && (s[j] == '}' || s[j] == ':') && ident(s.subrange(i + 1, j)) {
            seq![s.subrange(i + 1, j)] + rest
        } else {
            rest
        }
    }
}

#[via_fn]
proof fn captures_from_decreases(s: Chars, i: int) {
    if 0 <= i < s.len() {
        capture_end_bounds(s, i + 1);
    }
}

proof fn capture_end_bounds(s: Chars, j: int)
    requires
        0 <= j <= s.len(),
    ensures
        j <= capture_end(s, j) <= s.len(),
    decreases s.len() - j,
{
    if j < s.len() && capture_char(s[j]) {
        capture_end_bounds(s, j + 1);
    }
}

/// `{name}` / `{name:` captures: Rust 2021 inline format arguments (`{{` is an escape).
pub fn format_captures(s: &str) -> (out: Vec<String>)
    ensures
        out.deep_view() == captures_from(s@, 0),
{
    let v = chars(s);
    let mut out: Vec<String> = Vec::new();
    let mut i: usize = 0;
    assert(out.deep_view() + captures_from(v@, 0) =~= captures_from(v@, 0));
    while i < v.len()
        invariant
            i <= v.len(),
            v@ == s@,
            captures_from(v@, 0) == out.deep_view() + captures_from(v@, i as int),
        decreases v.len() - i,
    {
        if v[i] != '{' {
            i = i + 1;
        } else if i + 1 < v.len() && v[i + 1] == '{' {
            i = i + 2;
        } else {
            let start: usize = i + 1;
            let mut j: usize = start;
            while j < v.len() && (is_ascii_alnum(v[j]) || v[j] == '_')
                invariant
                    start <= j <= v.len(),
                    capture_end(v@, start as int) == capture_end(v@, j as int),
                decreases v.len() - j,
            {
                j = j + 1;
            }
            let ghost done = out.deep_view();
            let ghost rest = captures_from(v@, j as int);
            if j > start && j < v.len() && (v[j] == '}' || v[j] == ':') {
                let name = slice(&v, start, j);
                if is_ident(name.as_str()) {
                    put(&mut out, name);
                    assert(done + (seq![v@.subrange(start as int, j as int)] + rest) =~= out.deep_view() + rest);
                }
            }
            i = j;
        }
    }
    assert(out.deep_view() + Seq::<Chars>::empty() =~= out.deep_view());
    out
}

// ---------- recording ----------

/// One reference to `name`.
pub open spec fn ref_added(st: FactsView, name: Chars, in_test: bool) -> FactsView {
    FactsView { mentions: st.mentions.push((name, in_test)), ..st }
}

/// `names`, each with the context.
pub open spec fn tagged(names: Seq<Chars>, in_test: bool) -> Seq<(Chars, bool)> {
    Seq::new(names.len(), |i: int| (names[i], in_test))
}

/// The words of a doc comment.
pub open spec fn doc_added(st: FactsView, s: Chars) -> FactsView {
    FactsView { docs: st.docs + words_of(s), ..st }
}

/// What a string literal refers to: for symbols its segments and format captures; for shapes only
/// the captures of a string inside a macro body (`index.db` in a file name is not a field read).
pub open spec fn string_added(st: FactsView, s: Chars, ctx: Ctx, lang: Language, cfg: Dead) -> FactsView {
    let with = if cfg.symbols.string_refs {
        FactsView { mentions: st.mentions + tagged(segments(s) + captures_from(s, 0), ctx.in_test), ..st }
    } else {
        st
    };
    if cfg.shapes.string_refs && lang == Language::Rust && ctx.in_tt {
        FactsView { reads: with.reads + captures_from(s, 0), ctors: with.ctors + captures_from(s, 0), ..with }
    } else {
        with
    }
}

/// How a definition prints.
pub open spec fn display_of(vis_text: Chars, keyword: Chars, qualified: Chars) -> Chars {
    if vis_text.len() == 0 {
        keyword + " "@ + qualified
    } else {
        vis_text + " "@ + keyword + " "@ + qualified
    }
}

/// The name with its owner, for a method.
pub open spec fn qualified_of(t: Nodes, ctx: Ctx, kind: Chars, name: Chars) -> Chars {
    match ctx.owner {
        Some(o) => if kind == "method"@ && o < t.len() {
            t[o as int].text + "::"@ + name
        } else {
            name
        },
        None => name,
    }
}

/// One more definition, whose name node is no reference.
pub open spec fn def_added(
    t: Nodes,
    st: FactsView,
    name_node: int,
    item: int,
    kind: Chars,
    keyword: Chars,
    vis: Visibility,
    vis_text: Chars,
    ctx: Ctx,
    exempt: Option<Chars>,
    path: Chars,
) -> FactsView {
    let name = t[name_node].text;
    let qualified = qualified_of(t, ctx, kind, name);
    FactsView {
        skip: st.skip.insert(t[name_node].start),
        defs: st.defs.push(
            DefView {
                name,
                qualified,
                display: display_of(vis_text, keyword, qualified),
                kind,
                file: path,
                start_line: t[item].line,
                end_line: t[item].end_line,
                visibility: vis,
                in_test: ctx.in_test,
                exempt,
            },
        ),
        ..st
    }
}

impl Facts {
    /// Nothing collected.
    pub fn new() -> (r: Facts)
        ensures
            r@ == no_facts(),
    {
        let r = Facts {
            defs: Vec::new(),
            mentions: Vec::new(),
            docs: Vec::new(),
            types: Vec::new(),
            fields: Vec::new(),
            variants: Vec::new(),
            reads: Vec::new(),
            writes: Vec::new(),
            ctors: Vec::new(),
            handled: Vec::new(),
            wildcards: Vec::new(),
            impls: Vec::new(),
            skip: HashSet::new(),
        };
        assert(r@.defs =~= no_facts().defs);
        assert(r@.mentions =~= no_facts().mentions);
        assert(r@.docs =~= no_facts().docs);
        assert(r@.types =~= no_facts().types);
        assert(r@.fields =~= no_facts().fields);
        assert(r@.variants =~= no_facts().variants);
        assert(r@.reads =~= no_facts().reads);
        assert(r@.writes =~= no_facts().writes);
        assert(r@.ctors =~= no_facts().ctors);
        assert(r@.handled =~= no_facts().handled);
        assert(r@.wildcards =~= no_facts().wildcards);
        assert(r@.impls =~= no_facts().impls);
        assert(r@.skip =~= no_facts().skip);
        r
    }

    fn add_ref(&mut self, name: &str, in_test: bool)
        ensures
            final(self)@ == ref_added(old(self)@, name@, in_test),
    {
        put(&mut self.mentions, (name.to_owned(), in_test));
    }

    fn doc_words(&mut self, s: &str)
        ensures
            final(self)@ == doc_added(old(self)@, s@),
    {
        crate::text::extend(&mut self.docs, &words(s));
    }

    fn string_leaf(&mut self, s: &str, ctx: Ctx, set: &Setting)
        ensures
            final(self)@ == string_added(old(self)@, s@, ctx, set.lang, *set.cfg),
    {
        let caps = format_captures(s);
        if set.cfg.symbols.string_refs {
            let mut names = string_segments(s);
            crate::text::extend(&mut names, &caps);
            let ghost was = self.mentions.deep_view();
            let ghost all = tagged(names.deep_view(), ctx.in_test);
            let mut i: usize = 0;
            assert(was + all.take(0) =~= was);
            while i < names.len()
                invariant
                    i <= names.len(),
                    all == tagged(names.deep_view(), ctx.in_test),
                    self@ == (FactsView { mentions: was + all.take(i as int), ..old(self)@ }),
                decreases names.len() - i,
            {
                put(&mut self.mentions, (names[i].clone(), ctx.in_test));
                assert(was + all.take(i + 1) =~= (was + all.take(i as int)).push(all[i as int]));
                i = i + 1;
            }
            assert(all.take(all.len() as int) =~= all);
        }
        if set.cfg.shapes.string_refs && set.lang == Language::Rust && ctx.in_tt {
            crate::text::extend(&mut self.reads, &caps);
            crate::text::extend(&mut self.ctors, &caps);
        }
    }

    fn push_def(
        &mut self,
        t: &SyntaxTree,
        name_node: usize,
        item: usize,
        kind: &'static str,
        keyword: &str,
        vis: Visibility,
        vis_text: &str,
        ctx: Ctx,
        exempt: Option<String>,
        path: &str,
    )
        requires
            name_node < t@.len(),
            item < t@.len(),
        ensures
            final(self)@ == def_added(
                t@,
                old(self)@,
                name_node as int,
                item as int,
                kind@,
                keyword@,
                vis,
                vis_text@,
                ctx,
                exempt.deep_view(),
                path@,
            ),
    {
        let name: String = t.text(name_node).to_owned();
        assert(t@[name_node as int].start == t.nodes@[name_node as int].start);
        self.skip.insert(t.nodes[name_node].start);
        let qualified: String = match ctx.owner {
            Some(o) => if same(kind, "method") && o < t.len() {
                plus(plus(t.text(o).to_owned(), "::"), name.as_str())
            } else {
                name.clone()
            },
            None => name.clone(),
        };
        let display: String = if vis_text.is_empty() {
            plus(plus(keyword.to_owned(), " "), qualified.as_str())
        } else {
            plus(plus(plus(plus(vis_text.to_owned(), " "), keyword), " "), qualified.as_str())
        };
        assert(t@[item as int].line == t.nodes@[item as int].line);
        put(
            &mut self.defs,
            Def {
                name,
                qualified,
                display,
                kind,
                file: path.to_owned(),
                start_line: t.nodes[item].line,
                end_line: t.nodes[item].end_line,
                visibility: vis,
                in_test: ctx.in_test,
                exempt,
            },
        );
    }
}

// ---------- names and attributes ----------

/// The node that names a type: `Store<'c>` -> `Store`, `fmt::Result` -> `Result`, `&mut T` -> `T`.
pub open spec fn naming(t: Nodes, i: int) -> Option<usize>
    decreases t.len() - i,
{
    let k = t[i].kind;
    if i < 0 || i >= t.len() {
        None
    } else if k == "type_identifier"@ || k == "identifier"@ || k == "primitive_type"@ {
        Some(i as usize)
    } else if k == "generic_type"@ || k == "reference_type"@ || k == "pointer_type"@ || k == "dynamic_type"@ || k
        == "abstract_type"@ {
        let next = match child_of(t, i, "type"@) {
            Some(c) => Some(c),
            None => named_at(t, i, 0),
        };
        match next {
            Some(c) => if i < c < t.len() {
                naming(t, c as int)
            } else {
                None
            },
            None => None,
        }
    } else if k == "scoped_type_identifier"@ || k == "scoped_identifier"@ {
        match child_of(t, i, "name"@) {
            Some(c) => if i < c < t.len() {
                naming(t, c as int)
            } else {
                None
            },
            None => None,
        }
    } else {
        None
    }
}

/// The node that names a type.
pub fn named_type(t: &SyntaxTree, i: usize) -> (r: Option<usize>)
    requires
        t.ok(),
        i < t@.len(),
    ensures
        r == naming(t@, i as int),
        r matches Some(c) ==> c < t@.len(),
    decreases t@.len() - i,
{
    if t.is(i, "type_identifier") || t.is(i, "identifier") || t.is(i, "primitive_type") {
        Some(i)
    } else if t.is(i, "generic_type") || t.is(i, "reference_type") || t.is(i, "pointer_type") || t.is(
        i,
        "dynamic_type",
    ) || t.is(i, "abstract_type") {
        match t.child(i, "type") {
            Some(c) => named_type(t, c),
            None => match t.named_child(i, 0) {
                Some(c) => named_type(t, c),
                None => None,
            },
        }
    } else if t.is(i, "scoped_type_identifier") || t.is(i, "scoped_identifier") {
        match t.child(i, "name") {
            Some(c) => named_type(t, c),
            None => None,
        }
    } else {
        None
    }
}

/// The texts of the nodes of `kids` that are identifiers.
pub open spec fn identifier_texts(t: Nodes, kids: Seq<usize>) -> Seq<Chars>
    decreases kids.len(),
{
    if kids.len() == 0 {
        Seq::empty()
    } else if t[kids.last() as int].kind == "identifier"@ {
        identifier_texts(t, kids.drop_last()).push(t[kids.last() as int].text)
    } else {
        identifier_texts(t, kids.drop_last())
    }
}

fn identifiers(t: &SyntaxTree, kids: &Vec<usize>) -> (out: Vec<String>)
    requires
        forall|k: int| 0 <= k < kids.len() ==> #[trigger] kids@[k] < t@.len(),
    ensures
        out.deep_view() == identifier_texts(t@, kids@),
{
    let mut out: Vec<String> = Vec::new();
    let mut k: usize = 0;
    assert(kids@.take(0) =~= Seq::<usize>::empty());
    assert(out.deep_view() =~= Seq::<Chars>::empty());
    while k < kids.len()
        invariant
            k <= kids.len(),
            forall|k: int| 0 <= k < kids.len() ==> #[trigger] kids@[k] < t@.len(),
            out.deep_view() == identifier_texts(t@, kids@.take(k as int)),
        decreases kids.len() - k,
    {
        assert(kids@.take(k + 1).drop_last() =~= kids@.take(k as int));
        if t.is(kids[k], "identifier") {
            put(&mut out, t.text(kids[k]).to_owned());
        }
        k = k + 1;
    }
    assert(kids@.take(kids@.len() as int) =~= kids@);
    out
}

/// One attribute: its name and, for a `derive`, what it derives.
pub open spec fn attribute_at(t: Nodes, p: int) -> Option<(Chars, Seq<Chars>)> {
    match named_at(t, p, 0) {
        None => None,
        Some(a) => if t[a as int].kind != "attribute"@ {
            None
        } else {
            match named_at(t, a as int, 0) {
                None => None,
                Some(n) => {
                    let name = t[n as int].text;
                    if name == "derive"@ {
                        match child_of(t, a as int, "arguments"@) {
                            Some(tt) => Some((name, identifier_texts(t, named_kids(t, tt as int)))),
                            None => Some((name, Seq::empty())),
                        }
                    } else {
                        Some((name, Seq::empty()))
                    }
                },
            }
        },
    }
}

/// The attributes above `i`, nearest first, looking past comments.
pub open spec fn attributes(t: Nodes, i: int) -> Seq<(Chars, Seq<Chars>)>
    decreases i,
{
    match before_of(t, i, false) {
        None => Seq::empty(),
        Some(p) => if p >= i || p < 0 {
            Seq::empty()
        } else if t[p as int].kind == "attribute_item"@ {
            match attribute_at(t, p as int) {
                Some(a) => seq![a] + attributes(t, p as int),
                None => attributes(t, p as int),
            }
        } else if t[p as int].kind == "line_comment"@ || t[p as int].kind == "block_comment"@ {
            attributes(t, p as int)
        } else {
            Seq::empty()
        },
    }
}

fn attribute(t: &SyntaxTree, p: usize) -> (r: Option<(String, Vec<String>)>)
    requires
        t.ok(),
        p < t@.len(),
    ensures
        r.deep_view() == attribute_at(t@, p as int),
{
    match t.named_child(p, 0) {
        None => None,
        Some(a) => {
            if !t.is(a, "attribute") {
                return None;
            }
            match t.named_child(a, 0) {
                None => None,
                Some(n) => {
                    let name: String = t.text(n).to_owned();
                    let none: Vec<String> = Vec::new();
                    assert(none.deep_view() =~= Seq::<Chars>::empty());
                    if same(name.as_str(), "derive") {
                        match t.child(a, "arguments") {
                            Some(tt) => {
                                let kids = t.named_children(tt);
                                Some((name, identifiers(t, &kids)))
                            },
                            None => Some((name, none)),
                        }
                    } else {
                        Some((name, none))
                    }
                },
            }
        },
    }
}

/// Outer attributes above `item`, looking past comments: `(name, derive identifiers)`.
fn attrs_of(t: &SyntaxTree, item: usize) -> (out: Vec<(String, Vec<String>)>)
    requires
        t.ok(),
        item < t@.len(),
    ensures
        out.deep_view() == attributes(t@, item as int),
{
    let mut out: Vec<(String, Vec<String>)> = Vec::new();
    let mut at: usize = item;
    assert(out.deep_view() + attributes(t@, item as int) =~= attributes(t@, item as int));
    loop
        invariant
            t.ok(),
            at < t@.len(),
            attributes(t@, item as int) == out.deep_view() + attributes(t@, at as int),
        decreases at,
    {
        let ghost done = out.deep_view();
        match t.prev(at, false) {
            None => {
                assert(done + Seq::<(Chars, Seq<Chars>)>::empty() =~= done);
                return out;
            },
            Some(p) => {
                if t.is(p, "attribute_item") {
                    match attribute(t, p) {
                        Some(a) => {
                            let ghost rest = attributes(t@, p as int);
                            let ghost view = a.deep_view();
                            put(&mut out, a);
                            assert(done + (seq![view] + rest) =~= out.deep_view() + rest);
                        },
                        None => {},
                    }
                } else if t.is(p, "line_comment") || t.is(p, "block_comment") {
                } else {
                    assert(done + Seq::<(Chars, Seq<Chars>)>::empty() =~= done);
                    return out;
                }
                at = p;
            },
        }
    }
}

/// The first attribute, from `k` on, that exempts an item.
pub open spec fn exempting(attrs: Seq<(Chars, Seq<Chars>)>, skip: Seq<Chars>, k: int) -> Option<Chars>
    decreases attrs.len() - k,
{
    if k < 0 || k >= attrs.len() {
        None
    } else if skip.contains(attrs[k].0) || skip.contains(after_last(attrs[k].0, "::"@)) {
        Some("#["@ + attrs[k].0 + "]"@)
    } else {
        exempting(attrs, skip, k + 1)
    }
}

fn skipped_attr(attrs: &Vec<(String, Vec<String>)>, skip: &Vec<String>) -> (r: Option<String>)
    ensures
        r.deep_view() == exempting(attrs.deep_view(), skip.deep_view(), 0),
{
    let mut k: usize = 0;
    while k < attrs.len()
        invariant
            k <= attrs.len(),
            exempting(attrs.deep_view(), skip.deep_view(), 0) == exempting(
                attrs.deep_view(),
                skip.deep_view(),
                k as int,
            ),
        decreases attrs.len() - k,
    {
        let a = attrs[k].0.as_str();
        assert(attrs.deep_view()[k as int].0 == a@);
        let last = last_piece(a, "::");
        if list_has(skip, a) || list_has(skip, last.as_str()) {
            return Some(plus(plus("#[".to_owned(), a), "]"));
        }
        k = k + 1;
    }
    None
}

/// The first of `kids`, from `k` on, that is a visibility modifier.
pub open spec fn modifier_from(t: Nodes, kids: Seq<usize>, k: int) -> Option<usize>
    decreases kids.len() - k,
{
    if k < 0 || k >= kids.len() {
        None
    } else if t[kids[k] as int].kind == "visibility_modifier"@ {
        Some(kids[k])
    } else {
        modifier_from(t, kids, k + 1)
    }
}

/// Rust: the item's visibility and its text (`pub`, `pub(crate)`).
pub open spec fn visible(t: Nodes, i: int) -> (Visibility, Chars) {
    match modifier_from(t, t[i].children, 0) {
        None => (Visibility::Private, Seq::empty()),
        Some(m) => if t[m as int].text == "pub"@ {
            (Visibility::Public, t[m as int].text)
        } else {
            (Visibility::Restricted, t[m as int].text)
        },
    }
}

fn visibility(t: &SyntaxTree, i: usize) -> (r: (Visibility, String))
    requires
        t.ok(),
        i < t@.len(),
    ensures
        (r.0, r.1@) == visible(t@, i as int),
{
    let kids = &t.nodes[i].children;
    assert(node_ok(t@, i as int));
    let ghost all = t@[i as int].children;
    let mut k: usize = 0;
    while k < kids.len()
        invariant
            k <= kids.len(),
            all == kids@,
            all == t@[i as int].children,
            forall|k: int| 0 <= k < all.len() ==> i < #[trigger] all[k] < t@.len(),
            modifier_from(t@, all, 0) == modifier_from(t@, all, k as int),
        decreases kids.len() - k,
    {
        let c: usize = kids[k];
        assert(i < all[k as int] < t@.len());
        if t.is(c, "visibility_modifier") {
            let text = t.text(c).to_owned();
            if same(text.as_str(), "pub") {
                return (Visibility::Public, text);
            }
            return (Visibility::Restricted, text);
        }
        k = k + 1;
    }
    (Visibility::Private, String::new())
}

// ---------- contexts ----------

/// The Rust nodes whose children are patterns.
pub open spec fn pattern_kind(k: Chars) -> bool {
    ||| k == "tuple_struct_pattern"@
    ||| k == "struct_pattern"@
    ||| k == "or_pattern"@
    ||| k == "field_pattern"@
    ||| k == "slice_pattern"@
    ||| k == "tuple_pattern"@
    ||| k == "reference_pattern"@
    ||| k == "ref_pattern"@
    ||| k == "mut_pattern"@
    ||| k == "captured_pattern"@
    ||| k == "range_pattern"@
    ||| k == "generic_pattern"@
    ||| k == "remaining_field_pattern"@
}

fn is_pattern_kind(k: &str) -> (r: bool)
    ensures
        r == pattern_kind(k@),
{
    same(k, "tuple_struct_pattern") || same(k, "struct_pattern") || same(k, "or_pattern") || same(k, "field_pattern")
        || same(k, "slice_pattern") || same(k, "tuple_pattern") || same(k, "reference_pattern") || same(
        k,
        "ref_pattern",
    ) || same(k, "mut_pattern") || same(k, "captured_pattern") || same(k, "range_pattern") || same(k, "generic_pattern")
        || same(k, "remaining_field_pattern")
}

/// The context a child inherits: sticky flags from `base`, plus what the parent's kind and the
/// child's field add.
pub open spec fn inherited(t: Nodes, p: usize, base: Ctx, field: Chars, lang: Language) -> Ctx {
    let ctx = Ctx { assign_left: false, exported: false, parent: Some(p), ..base };
    let k = t[p as int].kind;
    match lang {
        Language::Rust => if pattern_kind(k) {
            Ctx { in_pattern: true, ..ctx }
        } else if k == "match_pattern"@ {
            Ctx { in_pattern: field != "condition"@, ..ctx }
        } else if k == "let_declaration"@ || k == "let_condition"@ || k == "for_expression"@ || k == "parameter"@ {
            if field == "pattern"@ {
                Ctx { in_pattern: true, ..ctx }
            } else {
                ctx
            }
        } else if k == "closure_parameters"@ {
            Ctx { in_pattern: true, ..ctx }
        } else if k == "assignment_expression"@ || k == "compound_assignment_expr"@ {
            Ctx { assign_left: field == "left"@, ..ctx }
        } else if k == "token_tree"@ {
            Ctx { in_tt: true, ..ctx }
        } else if k == "use_declaration"@ {
            Ctx { in_import: true, ..ctx }
        } else {
            ctx
        },
        Language::Python => ctx,
        _ => if k == "export_statement"@ {
            Ctx { exported: field == "declaration"@, ..ctx }
        } else if k == "import_statement"@ {
            Ctx { in_import: true, ..ctx }
        } else {
            ctx
        },
    }
}

fn child_ctx(t: &SyntaxTree, p: usize, base: Ctx, field: &str, lang: Language) -> (r: Ctx)
    requires
        p < t@.len(),
    ensures
        r == inherited(t@, p, base, field@, lang),
{
    let mut ctx: Ctx = base;
    ctx.assign_left = false;
    ctx.exported = false;
    ctx.parent = Some(p);
    let k = t.kind(p);
    match lang {
        Language::Rust => {
            if is_pattern_kind(k) {
                ctx.in_pattern = true;
            } else if same(k, "match_pattern") {
                ctx.in_pattern = !same(field, "condition");
            } else if same(k, "let_declaration") || same(k, "let_condition") || same(k, "for_expression") || same(
                k,
                "parameter",
            ) {
                if same(field, "pattern") {
                    ctx.in_pattern = true;
                }
            } else if same(k, "closure_parameters") {
                ctx.in_pattern = true;
            } else if same(k, "assignment_expression") || same(k, "compound_assignment_expr") {
                ctx.assign_left = same(field, "left");
            } else if same(k, "token_tree") {
                ctx.in_tt = true;
            } else if same(k, "use_declaration") {
                ctx.in_import = true;
            }
        },
        Language::Python => {},
        _ => {
            if same(k, "export_statement") {
                ctx.exported = same(field, "declaration");
            } else if same(k, "import_statement") {
                ctx.in_import = true;
            }
        },
    }
    ctx
}

// ---------- Rust ----------

/// How a Rust item of a kind is classed and printed.
pub open spec fn item_class(k: Chars) -> Chars {
    if k == "struct_item"@ {
        "struct"@
    } else if k == "enum_item"@ {
        "enum"@
    } else if k == "union_item"@ {
        "union"@
    } else if k == "trait_item"@ {
        "trait"@
    } else if k == "type_item"@ {
        "type"@
    } else if k == "const_item"@ {
        "const"@
    } else if k == "static_item"@ {
        "static"@
    } else {
        "mod"@
    }
}

fn class_of_item(k: &str) -> (r: &'static str)
    ensures
        r@ == item_class(k@),
{
    if same(k, "struct_item") {
        "struct"
    } else if same(k, "enum_item") {
        "enum"
    } else if same(k, "union_item") {
        "union"
    } else if same(k, "trait_item") {
        "trait"
    } else if same(k, "type_item") {
        "type"
    } else if same(k, "const_item") {
        "const"
    } else if same(k, "static_item") {
        "static"
    } else {
        "mod"
    }
}

/// A Rust item other than a function or an impl.
pub open spec fn item_kind(k: Chars) -> bool {
    ||| k == "struct_item"@
    ||| k == "enum_item"@
    ||| k == "union_item"@
    ||| k == "trait_item"@
    ||| k == "type_item"@
    ||| k == "const_item"@
    ||| k == "static_item"@
    ||| k == "mod_item"@
}

/// What all `derive` attributes derive, nearest first.
pub open spec fn derives_in(attrs: Seq<(Chars, Seq<Chars>)>) -> Seq<Chars>
    decreases attrs.len(),
{
    if attrs.len() == 0 {
        Seq::empty()
    } else if attrs.last().0 == "derive"@ {
        derives_in(attrs.drop_last()) + attrs.last().1
    } else {
        derives_in(attrs.drop_last())
    }
}

/// The names of the attributes other than `derive`.
pub open spec fn other_attrs(attrs: Seq<(Chars, Seq<Chars>)>) -> Seq<Chars>
    decreases attrs.len(),
{
    if attrs.len() == 0 {
        Seq::empty()
    } else if attrs.last().0 == "derive"@ {
        other_attrs(attrs.drop_last())
    } else {
        other_attrs(attrs.drop_last()).push(attrs.last().0)
    }
}

fn split_attrs(attrs: &Vec<(String, Vec<String>)>) -> (r: (Vec<String>, Vec<String>))
    ensures
        r.0.deep_view() == derives_in(attrs.deep_view()),
        r.1.deep_view() == other_attrs(attrs.deep_view()),
{
    let ghost view = attrs.deep_view();
    let mut derives: Vec<String> = Vec::new();
    let mut names: Vec<String> = Vec::new();
    let mut k: usize = 0;
    assert(view.take(0) =~= Seq::<(Chars, Seq<Chars>)>::empty());
    assert(derives.deep_view() =~= Seq::<Chars>::empty());
    assert(names.deep_view() =~= Seq::<Chars>::empty());
    while k < attrs.len()
        invariant
            k <= attrs.len(),
            view == attrs.deep_view(),
            derives.deep_view() == derives_in(view.take(k as int)),
            names.deep_view() == other_attrs(view.take(k as int)),
        decreases attrs.len() - k,
    {
        assert(view.take(k + 1).drop_last() =~= view.take(k as int));
        let a = &attrs[k];
        assert(view[k as int] == a.deep_view());
        if same(a.0.as_str(), "derive") {
            crate::text::extend(&mut derives, &a.1);
        } else {
            put(&mut names, a.0.clone());
        }
        k = k + 1;
    }
    assert(view.take(view.len() as int) =~= view);
    (derives, names)
}

/// What a Rust leaf adds.
pub open spec fn rust_leaf(t: Nodes, i: int, ctx: Ctx, st: FactsView, cfg: Dead) -> FactsView {
    let k = t[i].kind;
    if k == "identifier"@ || k == "type_identifier"@ || k == "field_identifier"@ || k == "shorthand_field_identifier"@ {
        if st.skip.contains(t[i].start) {
            st
        } else {
            let with = ref_added(st, t[i].text, ctx.in_test);
            if ctx.in_tt {
                FactsView { reads: with.reads.push(t[i].text), ctors: with.ctors.push(t[i].text), ..with }
            } else {
                with
            }
        }
    } else if k == "string_content"@ {
        string_added(st, t[i].text, ctx, Language::Rust, cfg)
    } else if k == "doc_comment"@ {
        doc_added(st, t[i].text)
    } else {
        st
    }
}

/// What a Rust function adds.
pub open spec fn rust_fn(t: Nodes, i: int, ctx: Ctx, st: FactsView, cfg: Dead, path: Chars) -> FactsView {
    let exempt = if ctx.trait_impl {
        Some("trait impl"@)
    } else {
        exempting(attributes(t, i), cfg.symbols.skip_attrs.deep_view(), 0)
    };
    let (vis, vis_text) = visible(t, i);
    let kind = if ctx.owner is Some {
        "method"@
    } else {
        "fn"@
    };
    match child_of(t, i, "name"@) {
        Some(n) => def_added(t, st, n as int, i, kind, "fn"@, vis, vis_text, ctx, exempt, path),
        None => st,
    }
}

/// One more struct or enum.
pub open spec fn type_added(
    t: Nodes,
    st: FactsView,
    n: int,
    i: int,
    attrs: Seq<(Chars, Seq<Chars>)>,
    ctx: Ctx,
) -> FactsView {
    FactsView {
        types: st.types.push(
            TypeView {
                name: t[n].text,
                is_enum: t[i].kind == "enum_item"@,
                line: t[i].line,
                derives: derives_in(attrs),
                attrs: other_attrs(attrs),
                in_test: ctx.in_test,
            },
        ),
        ..st
    }
}

/// What a Rust item that is neither a function nor an impl adds, and what its children inherit.
pub open spec fn rust_item(t: Nodes, i: int, ctx: Ctx, st: FactsView, cfg: Dead, path: Chars) -> (FactsView, Ctx) {
    let k = t[i].kind;
    let attrs = attributes(t, i);
    let exempt = exempting(attrs, cfg.symbols.skip_attrs.deep_view(), 0);
    let (vis, vis_text) = visible(t, i);
    let class = item_class(k);
    let name = child_of(t, i, "name"@);
    let (with, type_idx) = match name {
        None => (st, ctx.type_idx),
        Some(n) => {
            let d = def_added(t, st, n as int, i, class, class, vis, vis_text, ctx, exempt, path);
            if k == "struct_item"@ || k == "enum_item"@ {
                (
                    type_added(t, d, n as int, i, attrs, ctx),
                    Some(st.types.len() as usize),
                )
            } else {
                (d, None)
            }
        },
    };
    let base = Ctx { type_idx, ..ctx };
    if k == "trait_item"@ {
        (with, Ctx { owner: name, trait_impl: false, ..base })
    } else if k == "mod_item"@ {
        (with, Ctx { owner: None, ..base })
    } else {
        (with, base)
    }
}

/// The type and the trait of an impl.
pub open spec fn impl_of(t: Nodes, i: int) -> (Option<usize>, Option<usize>) {
    (
        match child_of(t, i, "type"@) {
            Some(c) => naming(t, c as int),
            None => None,
        },
        match child_of(t, i, "trait"@) {
            Some(c) => naming(t, c as int),
            None => None,
        },
    )
}

/// A member of the type being declared.
pub open spec fn member(t: Nodes, i: int, n: usize, ti: usize) -> MemberView {
    MemberView { type_idx: ti, name: t[n as int].text, line: t[i].line }
}

/// What a Rust node below an item adds.
pub open spec fn rust_inner(t: Nodes, i: int, ctx: Ctx, st: FactsView) -> FactsView {
    let k = t[i].kind;
    let name = child_of(t, i, "name"@);
    let field = child_of(t, i, "field"@);
    if k == "field_declaration"@ {
        match name {
            None => st,
            Some(n) => {
                let with = FactsView { skip: st.skip.insert(t[n as int].start), ..st };
                match ctx.type_idx {
                    Some(ti) => if ti < st.types.len() && !st.types[ti as int].is_enum {
                        FactsView { fields: with.fields.push(member(t, i, n, ti)), ..with }
                    } else {
                        with
                    },
                    None => with,
                }
            },
        }
    } else if k == "enum_variant"@ {
        match name {
            None => st,
            Some(n) => {
                let with = FactsView { skip: st.skip.insert(t[n as int].start), ..st };
                match ctx.type_idx {
                    Some(ti) => FactsView { variants: with.variants.push(member(t, i, n, ti)), ..with },
                    None => with,
                }
            },
        }
    } else if k == "field_expression"@ {
        match field {
            Some(f) => if t[f as int].kind != "field_identifier"@ {
                st
            } else if ctx.assign_left {
                FactsView { writes: st.writes.push((t[f as int].text, t[i].line)), ..st }
            } else {
                FactsView { reads: st.reads.push(t[f as int].text), ..st }
            },
            None => st,
        }
    } else if k == "field_pattern"@ {
        match name {
            Some(n) => FactsView { reads: st.reads.push(t[n as int].text), ..st },
            None => st,
        }
    } else if k == "field_initializer"@ {
        match field {
            Some(f) => FactsView { writes: st.writes.push((t[f as int].text, t[i].line)), ..st },
            None => st,
        }
    } else if k == "shorthand_field_initializer"@ {
        match named_at(t, i, 0) {
            Some(f) => FactsView { writes: st.writes.push((t[f as int].text, t[i].line)), ..st },
            None => st,
        }
    } else if k == "scoped_identifier"@ && !ctx.in_import {
        match name {
            Some(n) => if ctx.in_pattern {
                FactsView { handled: st.handled.push((t[n as int].text, t[i].line)), ..st }
            } else {
                FactsView { ctors: st.ctors.push(t[n as int].text), ..st }
            },
            None => st,
        }
    } else if k == "scoped_type_identifier"@ && !ctx.in_import {
        match name {
            Some(n) => if ctx.in_pattern {
                FactsView { handled: st.handled.push((t[n as int].text, t[i].line)), ..st }
            } else if is_kind(t, ctx.parent, "struct_expression"@) {
                FactsView { ctors: st.ctors.push(t[n as int].text), ..st }
            } else {
                st
            },
            None => st,
        }
    } else if k == "use_wildcard"@ {
        match named_at(t, i, 0) {
            Some(p) => match naming(t, p as int) {
                Some(last) => FactsView { wildcards: st.wildcards.push(t[last as int].text), ..st },
                None => st,
            },
            None => st,
        }
    } else {
        st
    }
}

/// What a Rust node adds, and the context its children start from.
pub open spec fn rust_step(t: Nodes, i: int, ctx: Ctx, st: FactsView, cfg: Dead, path: Chars) -> (FactsView, Ctx) {
    let k = t[i].kind;
    if t[i].children.len() == 0 {
        (rust_leaf(t, i, ctx, st, cfg), ctx)
    } else if k == "function_item"@ || k == "function_signature_item"@ {
        (rust_fn(t, i, ctx, st, cfg, path), ctx)
    } else if item_kind(k) {
        rust_item(t, i, ctx, st, cfg, path)
    } else if k == "impl_item"@ {
        let (ty, tr) = impl_of(t, i);
        (
            if ty is Some && tr is Some {
                FactsView { impls: st.impls.push((t[ty->0 as int].text, t[tr->0 as int].text)), ..st }
            } else {
                st
            },
            Ctx { owner: ty, trait_impl: tr is Some, ..ctx },
        )
    } else {
        (rust_inner(t, i, ctx, st), ctx)
    }
}

/// The context points into the tree.
pub open spec fn ctx_ok(t: Nodes, ctx: Ctx) -> bool {
    &&& ctx.parent matches Some(p) ==> p < t.len()
    &&& ctx.owner matches Some(o) ==> o < t.len()
}

impl Facts {
    fn rust_leaf(&mut self, t: &SyntaxTree, i: usize, ctx: Ctx, set: &Setting)
        requires
            i < t@.len(),
            set.lang == Language::Rust,
        ensures
            final(self)@ == rust_leaf(t@, i as int, ctx, old(self)@, *set.cfg),
    {
        if t.is(i, "identifier") || t.is(i, "type_identifier") || t.is(i, "field_identifier") || t.is(
            i,
            "shorthand_field_identifier",
        ) {
            assert(t@[i as int].start == t.nodes@[i as int].start);
            if !self.skip.contains(&t.nodes[i].start) {
                self.add_ref(t.text(i), ctx.in_test);
                if ctx.in_tt {
                    put(&mut self.reads, t.text(i).to_owned());
                    put(&mut self.ctors, t.text(i).to_owned());
                }
            }
        } else if t.is(i, "string_content") {
            self.string_leaf(t.text(i), ctx, set);
        } else if t.is(i, "doc_comment") {
            self.doc_words(t.text(i));
        }
    }

    fn rust_fn(&mut self, t: &SyntaxTree, i: usize, ctx: Ctx, set: &Setting)
        requires
            t.ok(),
            i < t@.len(),
        ensures
            final(self)@ == rust_fn(t@, i as int, ctx, old(self)@, *set.cfg, set.path@),
    {
        let exempt: Option<String> = if ctx.trait_impl {
            Some("trait impl".to_owned())
        } else {
            skipped_attr(&attrs_of(t, i), &set.cfg.symbols.skip_attrs)
        };
        let (vis, vis_text) = visibility(t, i);
        let kind: &'static str = if ctx.owner.is_some() {
            "method"
        } else {
            "fn"
        };
        match t.child(i, "name") {
            Some(n) => self.push_def(t, n, i, kind, "fn", vis, vis_text.as_str(), ctx, exempt, set.path),
            None => {},
        }
    }

    fn push_type(&mut self, t: &SyntaxTree, n: usize, i: usize, attrs: &Vec<(String, Vec<String>)>, ctx: Ctx)
        requires
            n < t@.len(),
            i < t@.len(),
        ensures
            final(self)@ == type_added(t@, old(self)@, n as int, i as int, attrs.deep_view(), ctx),
    {
        let (derives, names) = split_attrs(attrs);
        assert(t@[i as int].line == t.nodes@[i as int].line);
        put(
            &mut self.types,
            TypeDef {
                name: t.text(n).to_owned(),
                is_enum: t.is(i, "enum_item"),
                line: t.nodes[i].line,
                derives,
                attrs: names,
                in_test: ctx.in_test,
            },
        );
    }

    fn rust_item(&mut self, t: &SyntaxTree, i: usize, ctx: Ctx, set: &Setting) -> (base: Ctx)
        requires
            t.ok(),
            i < t@.len(),
            ctx_ok(t@, ctx),
        ensures
            (final(self)@, base) == rust_item(t@, i as int, ctx, old(self)@, *set.cfg, set.path@),
            ctx_ok(t@, base),
    {
        let mut base: Ctx = ctx;
        let attrs = attrs_of(t, i);
        let exempt = skipped_attr(&attrs, &set.cfg.symbols.skip_attrs);
        let (vis, vis_text) = visibility(t, i);
        let class = class_of_item(t.kind(i));
        let name = t.child(i, "name");
        match name {
            None => {},
            Some(n) => {
                self.push_def(t, n, i, class, class, vis, vis_text.as_str(), ctx, exempt, set.path);
                if t.is(i, "struct_item") || t.is(i, "enum_item") {
                    base.type_idx = Some(self.types.len());
                    self.push_type(t, n, i, &attrs, ctx);
                } else {
                    base.type_idx = None;
                }
            },
        }
        if t.is(i, "trait_item") {
            base.owner = name;
            base.trait_impl = false;
        } else if t.is(i, "mod_item") {
            base.owner = None;
        }
        base
    }

    fn rust_inner(&mut self, t: &SyntaxTree, i: usize, ctx: Ctx)
        requires
            t.ok(),
            i < t@.len(),
            ctx_ok(t@, ctx),
        ensures
            final(self)@ == rust_inner(t@, i as int, ctx, old(self)@),
    {
        let line: usize = t.nodes[i].line;
        assert(t@[i as int].line == line);
        let name = t.child(i, "name");
        let field = t.child(i, "field");
        if t.is(i, "field_declaration") {
            match name {
                None => {},
                Some(n) => {
                    assert(t@[n as int].start == t.nodes@[n as int].start);
                    self.skip.insert(t.nodes[n].start);
                    match ctx.type_idx {
                        Some(ti) => {
                            if ti < self.types.len() && !self.types[ti].is_enum {
                                put(&mut self.fields, MemberDef { type_idx: ti, name: t.text(n).to_owned(), line });
                            }
                        },
                        None => {},
                    }
                },
            }
        } else if t.is(i, "enum_variant") {
            match name {
                None => {},
                Some(n) => {
                    assert(t@[n as int].start == t.nodes@[n as int].start);
                    self.skip.insert(t.nodes[n].start);
                    match ctx.type_idx {
                        Some(ti) => {
                            put(&mut self.variants, MemberDef { type_idx: ti, name: t.text(n).to_owned(), line });
                        },
                        None => {},
                    }
                },
            }
        } else if t.is(i, "field_expression") {
            match field {
                Some(f) => {
                    if t.is(f, "field_identifier") {
                        if ctx.assign_left {
                            put(&mut self.writes, (t.text(f).to_owned(), line));
                        } else {
                            put(&mut self.reads, t.text(f).to_owned());
                        }
                    }
                },
                None => {},
            }
        } else if t.is(i, "field_pattern") {
            match name {
                Some(n) => put(&mut self.reads, t.text(n).to_owned()),
                None => {},
            }
        } else if t.is(i, "field_initializer") {
            match field {
                Some(f) => put(&mut self.writes, (t.text(f).to_owned(), line)),
                None => {},
            }
        } else if t.is(i, "shorthand_field_initializer") {
            match t.named_child(i, 0) {
                Some(f) => put(&mut self.writes, (t.text(f).to_owned(), line)),
                None => {},
            }
        } else if t.is(i, "scoped_identifier") && !ctx.in_import {
            match name {
                Some(n) => {
                    if ctx.in_pattern {
                        put(&mut self.handled, (t.text(n).to_owned(), line));
                    } else {
                        put(&mut self.ctors, t.text(n).to_owned());
                    }
                },
                None => {},
            }
        } else if t.is(i, "scoped_type_identifier") && !ctx.in_import {
            match name {
                Some(n) => {
                    if ctx.in_pattern {
                        put(&mut self.handled, (t.text(n).to_owned(), line));
                    } else if t.opt_is(ctx.parent, "struct_expression") {
                        put(&mut self.ctors, t.text(n).to_owned());
                    }
                },
                None => {},
            }
        } else if t.is(i, "use_wildcard") {
            match t.named_child(i, 0) {
                Some(p) => match named_type(t, p) {
                    Some(last) => put(&mut self.wildcards, t.text(last).to_owned()),
                    None => {},
                },
                None => {},
            }
        }
    }

    fn rust_node(&mut self, t: &SyntaxTree, i: usize, ctx: Ctx, set: &Setting) -> (base: Ctx)
        requires
            t.ok(),
            i < t@.len(),
            ctx_ok(t@, ctx),
            set.lang == Language::Rust,
        ensures
            (final(self)@, base) == rust_step(t@, i as int, ctx, old(self)@, *set.cfg, set.path@),
            ctx_ok(t@, base),
    {
        assert(t@[i as int].children == t.nodes@[i as int].children@);
        if t.nodes[i].children.len() == 0 {
            self.rust_leaf(t, i, ctx, set);
            return ctx;
        }
        if t.is(i, "function_item") || t.is(i, "function_signature_item") {
            self.rust_fn(t, i, ctx, set);
            return ctx;
        }
        if t.is(i, "struct_item") || t.is(i, "enum_item") || t.is(i, "union_item") || t.is(i, "trait_item") || t.is(
            i,
            "type_item",
        ) || t.is(i, "const_item") || t.is(i, "static_item") || t.is(i, "mod_item") {
            return self.rust_item(t, i, ctx, set);
        }
        if t.is(i, "impl_item") {
            let ty: Option<usize> = match t.child(i, "type") {
                Some(c) => named_type(t, c),
                None => None,
            };
            let tr: Option<usize> = match t.child(i, "trait") {
                Some(c) => named_type(t, c),
                None => None,
            };
            match (ty, tr) {
                (Some(a), Some(b)) => put(&mut self.impls, (t.text(a).to_owned(), t.text(b).to_owned())),
                _ => {},
            }
            let mut base: Ctx = ctx;
            base.owner = ty;
            base.trait_impl = tr.is_some();
            return base;
        }
        self.rust_inner(t, i, ctx);
        ctx
    }
}

// ---------- TypeScript / TSX / JavaScript ----------

/// What a TypeScript leaf adds.
pub open spec fn ts_leaf(t: Nodes, i: int, ctx: Ctx, st: FactsView, lang: Language, cfg: Dead) -> FactsView {
    let k = t[i].kind;
    if k == "identifier"@ || k == "type_identifier"@ || k == "property_identifier"@ || k
        == "shorthand_property_identifier"@ || k == "shorthand_property_identifier_pattern"@ {
        if !ctx.in_import && !st.skip.contains(t[i].start) {
            ref_added(st, t[i].text, ctx.in_test)
        } else {
            st
        }
    } else if k == "string_fragment"@ {
        string_added(st, t[i].text, ctx, lang, cfg)
    } else if k == "comment"@ {
        doc_added(st, t[i].text)
    } else {
        st
    }
}

/// Why a framework export is never a candidate.
pub open spec fn framework(name: Chars, cfg: Dead) -> Option<Chars> {
    if cfg.symbols.ts_framework_exports.deep_view().contains(name) {
        Some("framework export"@)
    } else {
        None
    }
}

/// One more TypeScript definition. Exported at the top it is public, elsewhere private.
pub open spec fn ts_def(
    t: Nodes,
    st: FactsView,
    n: usize,
    item: int,
    kind: Chars,
    keyword: Chars,
    ctx: Ctx,
    cfg: Dead,
    path: Chars,
) -> FactsView {
    let vis = if ctx.exported {
        Visibility::Public
    } else {
        Visibility::Private
    };
    let vis_text = if ctx.exported {
        "export"@
    } else {
        Seq::empty()
    };
    def_added(t, st, n as int, item, kind, keyword, vis, vis_text, ctx, framework(t[n as int].text, cfg), path)
}

/// A declaration of a TypeScript type.
pub open spec fn ts_type_kind(k: Chars) -> bool {
    ||| k == "class_declaration"@
    ||| k == "abstract_class_declaration"@
    ||| k == "interface_declaration"@
    ||| k == "type_alias_declaration"@
    ||| k == "enum_declaration"@
}

/// How a TypeScript type is classed and printed.
pub open spec fn ts_class(k: Chars) -> Chars {
    if k == "interface_declaration"@ {
        "interface"@
    } else if k == "type_alias_declaration"@ {
        "type"@
    } else if k == "enum_declaration"@ {
        "enum"@
    } else {
        "class"@
    }
}

fn class_of_ts(k: &str) -> (r: &'static str)
    ensures
        r@ == ts_class(k@),
{
    if same(k, "interface_declaration") {
        "interface"
    } else if same(k, "type_alias_declaration") {
        "type"
    } else if same(k, "enum_declaration") {
        "enum"
    } else {
        "class"
    }
}

/// A value that makes a variable a function.
pub open spec fn function_value(t: Nodes, v: Option<usize>) -> bool {
    is_kind(t, v, "arrow_function"@) || is_kind(t, v, "function_expression"@) || is_kind(t, v, "function"@) || is_kind(
        t,
        v,
        "generator_function"@,
    )
}

/// What one declarator adds.
pub open spec fn ts_declarator(t: Nodes, d: usize, ctx: Ctx, st: FactsView, cfg: Dead, path: Chars) -> FactsView {
    if t[d as int].kind != "variable_declarator"@ {
        st
    } else {
        match child_of(t, d as int, "name"@) {
            None => st,
            Some(n) => if t[n as int].kind != "identifier"@ {
                st
            } else if function_value(t, child_of(t, d as int, "value"@)) {
                ts_def(t, st, n, d as int, "fn"@, "function"@, ctx, cfg, path)
            } else {
                ts_def(t, st, n, d as int, "const"@, "const"@, ctx, cfg, path)
            },
        }
    }
}

/// What the declarators of `kids`, from `k` on, add.
pub open spec fn ts_declarators(
    t: Nodes,
    kids: Seq<usize>,
    k: int,
    ctx: Ctx,
    st: FactsView,
    cfg: Dead,
    path: Chars,
) -> FactsView
    decreases kids.len() - k,
{
    if k < 0 || k >= kids.len() {
        st
    } else {
        ts_declarators(t, kids, k + 1, ctx, ts_declarator(t, kids[k], ctx, st, cfg, path), cfg, path)
    }
}

/// What a TypeScript node adds, and the context its children start from.
pub open spec fn ts_step(
    t: Nodes,
    i: int,
    ctx: Ctx,
    st: FactsView,
    lang: Language,
    cfg: Dead,
    path: Chars,
) -> (FactsView, Ctx) {
    let k = t[i].kind;
    let name = child_of(t, i, "name"@);
    if t[i].children.len() == 0 {
        (ts_leaf(t, i, ctx, st, lang, cfg), ctx)
    } else if k == "function_declaration"@ || k == "generator_function_declaration"@ {
        match name {
            Some(n) => (ts_def(t, st, n, i, "fn"@, "function"@, ctx, cfg, path), ctx),
            None => (st, ctx),
        }
    } else if ts_type_kind(k) {
        (
            match name {
                Some(n) => ts_def(t, st, n, i, ts_class(k), ts_class(k), ctx, cfg, path),
                None => st,
            },
            if k == "class_declaration"@ || k == "abstract_class_declaration"@ {
                Ctx { owner: name, ..ctx }
            } else {
                ctx
            },
        )
    } else if k == "lexical_declaration"@ || k == "variable_declaration"@ {
        (ts_declarators(t, named_kids(t, i), 0, ctx, st, cfg, path), ctx)
    } else if k == "method_definition"@ {
        match name {
            Some(n) => if t[n as int].kind == "property_identifier"@ {
                (
                    def_added(
                        t,
                        st,
                        n as int,
                        i,
                        "method"@,
                        "method"@,
                        Visibility::Private,
                        Seq::empty(),
                        ctx,
                        None,
                        path,
                    ),
                    ctx,
                )
            } else {
                (st, ctx)
            },
            None => (st, ctx),
        }
    } else if k == "call_expression"@ {
        match child_of(t, i, "function"@) {
            Some(f) => if t[f as int].kind == "identifier"@ && cfg.symbols.ts_test_calls.deep_view().contains(
                t[f as int].text,
            ) {
                (st, Ctx { in_test: true, ..ctx })
            } else {
                (st, ctx)
            },
            None => (st, ctx),
        }
    } else {
        (st, ctx)
    }
}

impl Facts {
    fn ts_leaf(&mut self, t: &SyntaxTree, i: usize, ctx: Ctx, set: &Setting)
        requires
            i < t@.len(),
        ensures
            final(self)@ == ts_leaf(t@, i as int, ctx, old(self)@, set.lang, *set.cfg),
    {
        if t.is(i, "identifier") || t.is(i, "type_identifier") || t.is(i, "property_identifier") || t.is(
            i,
            "shorthand_property_identifier",
        ) || t.is(i, "shorthand_property_identifier_pattern") {
            assert(t@[i as int].start == t.nodes@[i as int].start);
            if !ctx.in_import && !self.skip.contains(&t.nodes[i].start) {
                self.add_ref(t.text(i), ctx.in_test);
            }
        } else if t.is(i, "string_fragment") {
            self.string_leaf(t.text(i), ctx, set);
        } else if t.is(i, "comment") {
            self.doc_words(t.text(i));
        }
    }

    fn ts_def(
        &mut self,
        t: &SyntaxTree,
        n: usize,
        item: usize,
        kind: &'static str,
        keyword: &str,
        ctx: Ctx,
        set: &Setting,
    )
        requires
            n < t@.len(),
            item < t@.len(),
        ensures
            final(self)@ == ts_def(t@, old(self)@, n, item as int, kind@, keyword@, ctx, *set.cfg, set.path@),
    {
        let exempt: Option<String> = if list_has(&set.cfg.symbols.ts_framework_exports, t.text(n)) {
            Some("framework export".to_owned())
        } else {
            None
        };
        let empty = String::new();
        let (vis, vis_text) = if ctx.exported {
            (Visibility::Public, "export")
        } else {
            (Visibility::Private, empty.as_str())
        };
        self.push_def(t, n, item, kind, keyword, vis, vis_text, ctx, exempt, set.path);
    }

    fn ts_declarator(&mut self, t: &SyntaxTree, d: usize, ctx: Ctx, set: &Setting)
        requires
            t.ok(),
            d < t@.len(),
        ensures
            final(self)@ == ts_declarator(t@, d, ctx, old(self)@, *set.cfg, set.path@),
    {
        if !t.is(d, "variable_declarator") {
            return;
        }
        match t.child(d, "name") {
            None => {},
            Some(n) => {
                if t.is(n, "identifier") {
                    let v = t.child(d, "value");
                    if t.opt_is(v, "arrow_function") || t.opt_is(v, "function_expression") || t.opt_is(v, "function")
                        || t.opt_is(v, "generator_function") {
                        self.ts_def(t, n, d, "fn", "function", ctx, set);
                    } else {
                        self.ts_def(t, n, d, "const", "const", ctx, set);
                    }
                }
            },
        }
    }

    fn ts_node(&mut self, t: &SyntaxTree, i: usize, ctx: Ctx, set: &Setting) -> (base: Ctx)
        requires
            t.ok(),
            i < t@.len(),
            ctx_ok(t@, ctx),
        ensures
            (final(self)@, base) == ts_step(t@, i as int, ctx, old(self)@, set.lang, *set.cfg, set.path@),
            ctx_ok(t@, base),
    {
        let mut base: Ctx = ctx;
        assert(t@[i as int].children == t.nodes@[i as int].children@);
        if t.nodes[i].children.len() == 0 {
            self.ts_leaf(t, i, ctx, set);
            return base;
        }
        let name = t.child(i, "name");
        if t.is(i, "function_declaration") || t.is(i, "generator_function_declaration") {
            match name {
                Some(n) => self.ts_def(t, n, i, "fn", "function", ctx, set),
                None => {},
            }
        } else if t.is(i, "class_declaration") || t.is(i, "abstract_class_declaration") || t.is(
            i,
            "interface_declaration",
        ) || t.is(i, "type_alias_declaration") || t.is(i, "enum_declaration") {
            match name {
                Some(n) => {
                    let class = class_of_ts(t.kind(i));
                    self.ts_def(t, n, i, class, class, ctx, set);
                },
                None => {},
            }
            if t.is(i, "class_declaration") || t.is(i, "abstract_class_declaration") {
                base.owner = name;
            }
        } else if t.is(i, "lexical_declaration") || t.is(i, "variable_declaration") {
            let kids = t.named_children(i);
            let ghost was = self@;
            let mut k: usize = 0;
            while k < kids.len()
                invariant
                    k <= kids.len(),
                    t.ok(),
                    forall|k: int| 0 <= k < kids@.len() ==> i < #[trigger] kids@[k] < t@.len(),
                    ts_declarators(t@, kids@, 0, ctx, was, *set.cfg, set.path@) == ts_declarators(
                        t@,
                        kids@,
                        k as int,
                        ctx,
                        self@,
                        *set.cfg,
                        set.path@,
                    ),
                decreases kids.len() - k,
            {
                self.ts_declarator(t, kids[k], ctx, set);
                k = k + 1;
            }
        } else if t.is(i, "method_definition") {
            match name {
                Some(n) => {
                    if t.is(n, "property_identifier") {
                        let empty = String::new();
                        self.push_def(
                            t,
                            n,
                            i,
                            "method",
                            "method",
                            Visibility::Private,
                            empty.as_str(),
                            ctx,
                            None,
                            set.path,
                        );
                    }
                },
                None => {},
            }
        } else if t.is(i, "call_expression") {
            match t.child(i, "function") {
                Some(f) => {
                    if t.is(f, "identifier") && list_has(&set.cfg.symbols.ts_test_calls, t.text(f)) {
                        base.in_test = true;
                    }
                },
                None => {},
            }
        }
        base
    }
}

// ---------- Python ----------

/// What a Python leaf adds.
pub open spec fn python_leaf(t: Nodes, i: int, ctx: Ctx, st: FactsView, cfg: Dead) -> FactsView {
    let k = t[i].kind;
    if k == "identifier"@ {
        if st.skip.contains(t[i].start) {
            st
        } else {
            ref_added(st, t[i].text, ctx.in_test)
        }
    } else if k == "string_content"@ {
        if ctx.in_doc {
            doc_added(st, t[i].text)
        } else {
            string_added(st, t[i].text, ctx, Language::Python, cfg)
        }
    } else if k == "comment"@ {
        doc_added(st, t[i].text)
    } else {
        st
    }
}

/// The parent of `i`, where there is a node and it has one.
pub open spec fn up(t: Nodes, i: Option<usize>) -> Option<usize> {
    match i {
        Some(n) => t[n as int].parent,
        None => None,
    }
}

/// The node stands at the top of its module, decorated or not.
pub open spec fn module_level(t: Nodes, i: int) -> bool {
    let p = t[i].parent;
    if is_kind(t, p, "decorated_definition"@) {
        is_kind(t, up(t, p), "module"@)
    } else {
        is_kind(t, p, "module"@)
    }
}

/// The function stands in the body of a class, decorated or not.
pub open spec fn in_class(t: Nodes, i: int) -> bool {
    let g = up(t, t[i].parent);
    is_kind(t, g, "class_definition"@) || is_kind(t, g, "decorated_definition"@)
}

/// The decorators of `kids`, without their `@`.
pub open spec fn decorators_in(t: Nodes, kids: Seq<usize>) -> Seq<Chars>
    decreases kids.len(),
{
    if kids.len() == 0 {
        Seq::empty()
    } else if t[kids.last() as int].kind == "decorator"@ {
        decorators_in(t, kids.drop_last()).push(stripped_start(t[kids.last() as int].text, "@"@))
    } else {
        decorators_in(t, kids.drop_last())
    }
}

/// The decorators of a definition, without their `@`.
pub open spec fn decorators(t: Nodes, i: int) -> Seq<Chars> {
    match t[i].parent {
        Some(p) => if t[p as int].kind == "decorated_definition"@ {
            decorators_in(t, named_kids(t, p as int))
        } else {
            Seq::empty()
        },
        None => Seq::empty(),
    }
}

/// What stands before the first `c` of `s`; all of `s` where there is none.
pub open spec fn head_of(s: Chars, c: char) -> Chars {
    match around_first(s, c) {
        Some((h, _)) => h,
        None => s,
    }
}

/// One of `skip` matches the decorator: as it is, or by its beginning where it ends in `*`.
pub open spec fn skips(skip: Seq<Chars>, head: Chars) -> bool {
    exists|k: int|
        0 <= k < skip.len() && (match without_suffix(#[trigger] skip[k], "*"@) {
            Some(prefix) => starts(head, prefix),
            None => skip[k] == head,
        })
}

/// The first decorator, from `k` on, that exempts a definition.
pub open spec fn decorator_exempt(list: Seq<Chars>, skip: Seq<Chars>, k: int) -> Option<Chars>
    decreases list.len() - k,
{
    if k < 0 || k >= list.len() {
        None
    } else if skips(skip, head_of(list[k], '(')) {
        Some("@"@ + list[k])
    } else {
        decorator_exempt(list, skip, k + 1)
    }
}

/// Some decorator names pytest.
pub open spec fn names_pytest(list: Seq<Chars>) -> bool {
    exists|k: int| 0 <= k < list.len() && holds(#[trigger] list[k], "pytest"@)
}

/// A Python name is public at the top of its module or class, without a leading `_`.
pub open spec fn python_vis(name: Chars, top: bool) -> Visibility {
    if top && !starts(name, "_"@) {
        Visibility::Public
    } else {
        Visibility::Private
    }
}

/// What a Python function or class adds, and the context its children start from.
pub open spec fn python_def(t: Nodes, i: int, ctx: Ctx, st: FactsView, cfg: Dead, path: Chars) -> (FactsView, Ctx) {
    match child_of(t, i, "name"@) {
        None => (st, ctx),
        Some(n) => {
            let name = t[n as int].text;
            let is_fn = t[i].kind == "function_definition"@;
            let is_method = is_fn && ctx.owner is Some && in_class(t, i);
            let list = decorators(t, i);
            let is_test = (is_fn && starts(name, "test_"@)) || names_pytest(list);
            let here = Ctx { in_test: ctx.in_test || is_test, ..ctx };
            let kind = if !is_fn {
                "class"@
            } else if is_method {
                "method"@
            } else {
                "fn"@
            };
            let keyword = if !is_fn {
                "class"@
            } else {
                "def"@
            };
            (
                def_added(
                    t,
                    st,
                    n as int,
                    i,
                    kind,
                    keyword,
                    python_vis(name, module_level(t, i) || is_method),
                    Seq::empty(),
                    here,
                    decorator_exempt(list, cfg.symbols.skip_decorators.deep_view(), 0),
                    path,
                ),
                Ctx {
                    in_test: here.in_test,
                    owner: if is_fn {
                        None
                    } else {
                        Some(n)
                    },
                    ..ctx
                },
            )
        },
    }
}

/// The name is written like a constant: a capital and no small letter.
pub open spec fn shouted(name: Chars) -> bool {
    (exists|i: int| 0 <= i < name.len() && ascii_upper(#[trigger] name[i])) && !(exists|i: int|
        0 <= i < name.len() && ascii_lower(#[trigger] name[i]))
}

fn is_shouted(s: &str) -> (r: bool)
    ensures
        r == shouted(s@),
{
    let v = chars(s);
    let mut upper: bool = false;
    let mut lower: bool = false;
    let mut i: usize = 0;
    while i < v.len()
        invariant
            i <= v.len(),
            v@ == s@,
            upper <==> exists|k: int| 0 <= k < i && ascii_upper(#[trigger] s@[k]),
            lower <==> exists|k: int| 0 <= k < i && ascii_lower(#[trigger] s@[k]),
        decreases v.len() - i,
    {
        let c: char = v[i];
        assert(s@[i as int] == c);
        let u: bool = is_ascii_upper(c);
        let l: bool = is_ascii_lower(c);
        upper = upper || u;
        lower = lower || l;
        i = i + 1;
    }
    upper && !lower
}

/// The statement `p` is the first of a block or a module.
pub open spec fn first_statement(t: Nodes, p: Option<usize>) -> bool {
    is_kind(t, p, "expression_statement"@) && (is_kind(t, up(t, p), "block"@) || is_kind(t, up(t, p), "module"@))
        && named_at(t, up(t, p)->0 as int, 0) == p
}

/// What a Python node adds, and the context its children start from.
pub open spec fn python_step(t: Nodes, i: int, ctx: Ctx, st: FactsView, cfg: Dead, path: Chars) -> (FactsView, Ctx) {
    let k = t[i].kind;
    if t[i].children.len() == 0 {
        (python_leaf(t, i, ctx, st, cfg), ctx)
    } else if k == "function_definition"@ || k == "class_definition"@ {
        python_def(t, i, ctx, st, cfg, path)
    } else if k == "assignment"@ {
        match child_of(t, i, "left"@) {
            Some(l) => if t[l as int].kind == "identifier"@ && is_kind(t, ctx.parent, "expression_statement"@) && is_kind(
                t,
                up(t, ctx.parent),
                "module"@,
            ) {
                let word = if shouted(t[l as int].text) {
                    "const"@
                } else {
                    "var"@
                };
                (
                    def_added(
                        t,
                        st,
                        l as int,
                        i,
                        word,
                        word,
                        python_vis(t[l as int].text, true),
                        Seq::empty(),
                        ctx,
                        None,
                        path,
                    ),
                    ctx,
                )
            } else {
                (st, ctx)
            },
            None => (st, ctx),
        }
    } else if k == "string"@ && first_statement(t, ctx.parent) {
        (st, Ctx { in_doc: true, ..ctx })
    } else {
        (st, ctx)
    }
}

fn parent_of(t: &SyntaxTree, i: Option<usize>) -> (r: Option<usize>)
    requires
        t.ok(),
        i matches Some(n) ==> n < t@.len(),
    ensures
        r == up(t@, i),
        r matches Some(n) ==> n < t@.len(),
{
    match i {
        Some(n) => t.parent(n),
        None => None,
    }
}

fn decorators_of(t: &SyntaxTree, i: usize) -> (out: Vec<String>)
    requires
        t.ok(),
        i < t@.len(),
    ensures
        out.deep_view() == decorators(t@, i as int),
{
    let mut out: Vec<String> = Vec::new();
    assert(out.deep_view() =~= Seq::<Chars>::empty());
    match t.parent(i) {
        None => out,
        Some(p) => {
            if !t.is(p, "decorated_definition") {
                return out;
            }
            let kids = t.named_children(p);
            let mut k: usize = 0;
            assert(kids@.take(0) =~= Seq::<usize>::empty());
            while k < kids.len()
                invariant
                    k <= kids.len(),
                    forall|k: int| 0 <= k < kids@.len() ==> p < #[trigger] kids@[k] < t@.len(),
                    out.deep_view() == decorators_in(t@, kids@.take(k as int)),
                decreases kids.len() - k,
            {
                assert(kids@.take(k + 1).drop_last() =~= kids@.take(k as int));
                if t.is(kids[k], "decorator") {
                    put(&mut out, strip_start(t.text(kids[k]), "@"));
                }
                k = k + 1;
            }
            assert(kids@.take(kids@.len() as int) =~= kids@);
            out
        },
    }
}

fn is_skipped(skip: &Vec<String>, head: &str) -> (r: bool)
    ensures
        r == skips(skip.deep_view(), head@),
{
    let ghost view = skip.deep_view();
    let mut k: usize = 0;
    while k < skip.len()
        invariant
            k <= skip.len(),
            view == skip.deep_view(),
            forall|j: int|
                0 <= j < k ==> !(match without_suffix(#[trigger] view[j], "*"@) {
                    Some(prefix) => starts(head@, prefix),
                    None => view[j] == head@,
                }),
        decreases skip.len() - k,
    {
        let s = skip[k].as_str();
        assert(view[k as int] == s@);
        let hit: bool = match strip_suffix(s, "*") {
            Some(prefix) => starts_with(head, prefix.as_str()),
            None => same(s, head),
        };
        if hit {
            return true;
        }
        k = k + 1;
    }
    false
}

/// `s.split(c).next()`.
pub fn head(s: &str, c: char) -> (r: String)
    ensures
        r@ == head_of(s@, c),
{
    match split_once(s, c) {
        Some((h, _)) => h,
        None => s.to_owned(),
    }
}

fn decorated_exempt(list: &Vec<String>, skip: &Vec<String>) -> (r: Option<String>)
    ensures
        r.deep_view() == decorator_exempt(list.deep_view(), skip.deep_view(), 0),
{
    let ghost view = list.deep_view();
    let mut k: usize = 0;
    while k < list.len()
        invariant
            k <= list.len(),
            view == list.deep_view(),
            decorator_exempt(view, skip.deep_view(), 0) == decorator_exempt(view, skip.deep_view(), k as int),
        decreases list.len() - k,
    {
        let d = list[k].as_str();
        assert(view[k as int] == d@);
        let h = head(d, '(');
        if is_skipped(skip, h.as_str()) {
            return Some(plus("@".to_owned(), d));
        }
        k = k + 1;
    }
    None
}

fn any_pytest(list: &Vec<String>) -> (r: bool)
    ensures
        r == names_pytest(list.deep_view()),
{
    let ghost view = list.deep_view();
    let mut k: usize = 0;
    while k < list.len()
        invariant
            k <= list.len(),
            view == list.deep_view(),
            forall|j: int| 0 <= j < k ==> !holds(#[trigger] view[j], "pytest"@),
        decreases list.len() - k,
    {
        assert(view[k as int] == list@[k as int]@);
        if contains(list[k].as_str(), "pytest") {
            return true;
        }
        k = k + 1;
    }
    false
}

impl Facts {
    fn python_leaf(&mut self, t: &SyntaxTree, i: usize, ctx: Ctx, set: &Setting)
        requires
            i < t@.len(),
            set.lang == Language::Python,
        ensures
            final(self)@ == python_leaf(t@, i as int, ctx, old(self)@, *set.cfg),
    {
        if t.is(i, "identifier") {
            assert(t@[i as int].start == t.nodes@[i as int].start);
            if !self.skip.contains(&t.nodes[i].start) {
                self.add_ref(t.text(i), ctx.in_test);
            }
        } else if t.is(i, "string_content") {
            if ctx.in_doc {
                self.doc_words(t.text(i));
            } else {
                self.string_leaf(t.text(i), ctx, set);
            }
        } else if t.is(i, "comment") {
            self.doc_words(t.text(i));
        }
    }

    fn python_def(&mut self, t: &SyntaxTree, i: usize, ctx: Ctx, set: &Setting) -> (base: Ctx)
        requires
            t.ok(),
            i < t@.len(),
            ctx_ok(t@, ctx),
        ensures
            (final(self)@, base) == python_def(t@, i as int, ctx, old(self)@, *set.cfg, set.path@),
            ctx_ok(t@, base),
    {
        let mut base: Ctx = ctx;
        match t.child(i, "name") {
            None => {},
            Some(n) => {
                let name = t.text(n);
                let is_fn: bool = t.is(i, "function_definition");
                let p = t.parent(i);
                let g = parent_of(t, p);
                let is_method: bool = is_fn && ctx.owner.is_some() && (t.opt_is(g, "class_definition") || t.opt_is(
                    g,
                    "decorated_definition",
                ));
                let top: bool = if t.opt_is(p, "decorated_definition") {
                    t.opt_is(g, "module")
                } else {
                    t.opt_is(p, "module")
                };
                let vis: Visibility = if (top || is_method) && !starts_with(name, "_") {
                    Visibility::Public
                } else {
                    Visibility::Private
                };
                let list = decorators_of(t, i);
                let exempt = decorated_exempt(&list, &set.cfg.symbols.skip_decorators);
                let is_test: bool = (is_fn && starts_with(name, "test_")) || any_pytest(&list);
                let mut here: Ctx = ctx;
                here.in_test = ctx.in_test || is_test;
                let kind: &'static str = if !is_fn {
                    "class"
                } else if is_method {
                    "method"
                } else {
                    "fn"
                };
                let keyword: &'static str = if !is_fn {
                    "class"
                } else {
                    "def"
                };
                let empty = String::new();
                self.push_def(t, n, i, kind, keyword, vis, empty.as_str(), here, exempt, set.path);
                base.in_test = here.in_test;
                base.owner = if is_fn {
                    None
                } else {
                    Some(n)
                };
            },
        }
        base
    }

    fn python_node(&mut self, t: &SyntaxTree, i: usize, ctx: Ctx, set: &Setting) -> (base: Ctx)
        requires
            t.ok(),
            i < t@.len(),
            ctx_ok(t@, ctx),
            set.lang == Language::Python,
        ensures
            (final(self)@, base) == python_step(t@, i as int, ctx, old(self)@, *set.cfg, set.path@),
            ctx_ok(t@, base),
    {
        let mut base: Ctx = ctx;
        assert(t@[i as int].children == t.nodes@[i as int].children@);
        if t.nodes[i].children.len() == 0 {
            self.python_leaf(t, i, ctx, set);
            return base;
        }
        if t.is(i, "function_definition") || t.is(i, "class_definition") {
            return self.python_def(t, i, ctx, set);
        }
        let up = parent_of(t, ctx.parent);
        if t.is(i, "assignment") {
            match t.child(i, "left") {
                Some(l) => {
                    if t.is(l, "identifier") && t.opt_is(ctx.parent, "expression_statement") && t.opt_is(up, "module") {
                        let name = t.text(l);
                        let vis: Visibility = if !starts_with(name, "_") {
                            Visibility::Public
                        } else {
                            Visibility::Private
                        };
                        let word: &'static str = if is_shouted(name) {
                            "const"
                        } else {
                            "var"
                        };
                        let empty = String::new();
                        self.push_def(t, l, i, word, word, vis, empty.as_str(), ctx, None, set.path);
                    }
                },
                None => {},
            }
        } else if t.is(i, "string") {
            // A docstring: the first statement of a module, class or function body.
            if t.opt_is(ctx.parent, "expression_statement") && (t.opt_is(up, "block") || t.opt_is(up, "module")) {
                match up {
                    Some(b) => {
                        let first = t.named_child(b, 0);
                        if first.is_some() && ctx.parent.is_some() && first.unwrap() == ctx.parent.unwrap() {
                            base.in_doc = true;
                        }
                    },
                    None => {},
                }
            }
        }
        base
    }
}

// ---------- the walk ----------

/// What a node adds, and the context its children start from.
pub open spec fn node_step(
    t: Nodes,
    i: int,
    ctx: Ctx,
    st: FactsView,
    lang: Language,
    cfg: Dead,
    path: Chars,
) -> (FactsView, Ctx) {
    match lang {
        Language::Rust => rust_step(t, i, ctx, st, cfg, path),
        Language::Python => python_step(t, i, ctx, st, cfg, path),
        _ => ts_step(t, i, ctx, st, lang, cfg, path),
    }
}

/// The context of node `i`, from what its ancestors handed down.
pub open spec fn ctx_at(
    t: Nodes,
    i: int,
    bases: Seq<Ctx>,
    initial: Ctx,
    regions: Seq<TestRegion>,
    lang: Language,
) -> Ctx {
    let ctx = match t[i].parent {
        Some(p) => inherited(t, p, bases[p as int], t[i].field, lang),
        None => initial,
    };
    if lang == Language::Rust && within(regions, t[i].start) {
        Ctx { in_test: true, ..ctx }
    } else {
        ctx
    }
}

/// What the nodes from `i` on, in pre-order, add to `st`; `bases` is what each earlier node hands
/// to its children.
pub open spec fn walked_from(
    t: Nodes,
    i: int,
    st: FactsView,
    bases: Seq<Ctx>,
    initial: Ctx,
    regions: Seq<TestRegion>,
    lang: Language,
    cfg: Dead,
    path: Chars,
) -> FactsView
    decreases t.len() - i,
{
    if i < 0 || i >= t.len() {
        st
    } else {
        let ctx = ctx_at(t, i, bases, initial, regions, lang);
        let (next, base) = node_step(t, i, ctx, st, lang, cfg, path);
        walked_from(t, i + 1, next, bases.push(base), initial, regions, lang, cfg, path)
    }
}

/// What a whole file adds.
pub open spec fn walked(
    t: Nodes,
    in_test: bool,
    regions: Seq<TestRegion>,
    lang: Language,
    cfg: Dead,
    path: Chars,
) -> FactsView {
    walked_from(t, 0, no_facts(), Seq::empty(), top_ctx(in_test), regions, lang, cfg, path)
}

/// Walk one tree in pre-order, handing each node's context to its children.
pub fn walk(t: &SyntaxTree, in_test: bool, regions: &Vec<TestRegion>, set: &Setting) -> (st: Facts)
    requires
        t.ok(),
    ensures
        st@ == walked(t@, in_test, regions@, set.lang, *set.cfg, set.path@),
{
    let mut st = Facts::new();
    let initial = Ctx {
        in_test,
        in_pattern: false,
        in_tt: false,
        in_import: false,
        in_doc: false,
        assign_left: false,
        exported: false,
        trait_impl: false,
        owner: None,
        type_idx: None,
        parent: None,
    };
    let mut bases: Vec<Ctx> = Vec::new();
    let mut i: usize = 0;
    assert(bases@ =~= Seq::<Ctx>::empty());
    while i < t.len()
        invariant
            i <= t@.len(),
            t.ok(),
            bases.len() == i,
            initial == top_ctx(in_test),
            forall|k: int| 0 <= k < i ==> ctx_ok(t@, #[trigger] bases@[k]),
            walked(t@, in_test, regions@, set.lang, *set.cfg, set.path@) == walked_from(
                t@,
                i as int,
                st@,
                bases@,
                initial,
                regions@,
                set.lang,
                *set.cfg,
                set.path@,
            ),
        decreases t@.len() - i,
    {
        assert(t@[i as int] == t.nodes@[i as int].deep_view());
        let mut ctx: Ctx = match t.parent(i) {
            Some(p) => child_ctx(t, p, bases[p], t.nodes[i].field.as_str(), set.lang),
            None => initial,
        };
        if set.lang == Language::Rust && crate::regions::contains(regions, t.nodes[i].start) {
            ctx.in_test = true;
        }
        let base: Ctx = match set.lang {
            Language::Rust => st.rust_node(t, i, ctx, set),
            Language::Python => st.python_node(t, i, ctx, set),
            _ => st.ts_node(t, i, ctx, set),
        };
        bases.push(base);
        i = i + 1;
    }
    st
}

} // verus!
