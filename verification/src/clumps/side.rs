//! The functions of one file with their parameters.

use vstd::prelude::*;

use crate::config::Clumps;
use crate::discover::{FileKind, SourceFile};
use crate::lang::Language;
use crate::regions::{contains, regions_from, test_regions, within, TestRegion};
use crate::text::{
    ascii_alnum, chars, ends, ends_with, fields, fields_of, is_ascii_alnum, join, joined, list_has, put, same, slice,
    starts, starts_with, strip_start, stripped_start, trim, trim_leading, trim_start, trimmed, trimmed_start,
    without_leading, Chars,
};
use crate::tree::{child_of, is_kind, named_at, named_kids, opt_nodes, reads_as, Nodes, SyntaxTree};
use crate::units::{bare, bare_of, tree_units, unit_nodes, Unit, UnitView};

verus! {

/// One named parameter of a function.
pub struct Param {
    pub name: String,
    /// The declared type with single blanks (`&Snapshot`); none where nothing is declared.
    pub ty: Option<String>,
    /// Named with the unused prefix, or referenced nowhere in the body.
    pub unused: bool,
}

/// A [`Param`] by its contents.
pub struct ParamView {
    pub name: Chars,
    pub ty: Option<Chars>,
    pub unused: bool,
}

impl DeepView for Param {
    type V = ParamView;

    open spec fn deep_view(&self) -> ParamView {
        ParamView { name: self.name@, ty: self.ty.deep_view(), unused: self.unused }
    }
}

/// A function: its named parameters in declared order, and every identifier its body references.
pub struct FnSite {
    pub name: String,
    pub line: usize,
    pub params: Vec<Param>,
    pub refs: Vec<String>,
}

/// An [`FnSite`] by its contents.
pub struct FnView {
    pub name: Chars,
    pub line: usize,
    pub params: Seq<ParamView>,
    pub refs: Seq<Chars>,
}

impl DeepView for FnSite {
    type V = FnView;

    open spec fn deep_view(&self) -> FnView {
        FnView {
            name: self.name@,
            line: self.line,
            params: self.params.deep_view(),
            refs: self.refs.deep_view(),
        }
    }
}

/// The functions of a file.
pub struct FileSide {
    pub path: String,
    pub functions: Vec<FnSite>,
    /// Functions left out: trait and override methods, and callbacks.
    pub skipped_trait_impls: usize,
    /// Functions left out: protocol tuples.
    pub skipped_protocol: usize,
    /// Functions left out: overloads, dunders and stubs.
    pub skipped_other: usize,
    /// Functions left out: a name met before in the file.
    pub skipped_duplicates: usize,
    /// Identifiers referenced outside the analysed functions: the bodies of the functions left out
    /// and what stands outside any function (a dispatch table, a module-level call), imports and test
    /// regions apart.
    pub other_refs: Vec<String>,
}

/// A [`FileSide`] by its contents.
pub struct SideView {
    pub path: Chars,
    pub functions: Seq<FnView>,
    pub skipped_trait_impls: nat,
    pub skipped_protocol: nat,
    pub skipped_other: nat,
    pub skipped_duplicates: nat,
    pub other_refs: Seq<Chars>,
}

impl DeepView for FileSide {
    type V = SideView;

    open spec fn deep_view(&self) -> SideView {
        SideView {
            path: self.path@,
            functions: self.functions.deep_view(),
            skipped_trait_impls: self.skipped_trait_impls as nat,
            skipped_protocol: self.skipped_protocol as nat,
            skipped_other: self.skipped_other as nat,
            skipped_duplicates: self.skipped_duplicates as nat,
            other_refs: self.other_refs.deep_view(),
        }
    }
}

// ---------- references ----------

/// Names with one more, where it is new.
pub open spec fn with_name(s: Seq<Chars>, x: Chars) -> Seq<Chars> {
    if s.contains(x) {
        s
    } else {
        s.push(x)
    }
}

/// Names with more of them.
pub open spec fn with_names(s: Seq<Chars>, more: Seq<Chars>) -> Seq<Chars>
    decreases more.len(),
{
    if more.len() == 0 {
        s
    } else {
        with_name(with_names(s, more.drop_last()), more.last())
    }
}

fn add_name(out: &mut Vec<String>, x: &str)
    ensures
        final(out).deep_view() == with_name(old(out).deep_view(), x@),
{
    if !list_has(out, x) {
        put(out, x.to_owned());
    }
}

fn add_names(out: &mut Vec<String>, more: &Vec<String>)
    ensures
        final(out).deep_view() == with_names(old(out).deep_view(), more.deep_view()),
{
    let ghost was = out.deep_view();
    let ghost view = more.deep_view();
    let mut k: usize = 0;
    assert(view.take(0) =~= Seq::<Chars>::empty());
    while k < more.len()
        invariant
            k <= more.len(),
            view == more.deep_view(),
            out.deep_view() == with_names(was, view.take(k as int)),
        decreases more.len() - k,
    {
        assert(view.take(k + 1).drop_last() =~= view.take(k as int));
        assert(view[k as int] == more@[k as int]@);
        add_name(out, more[k].as_str());
        k = k + 1;
    }
    assert(view.take(view.len() as int) =~= view);
}

/// Where a run of ASCII letters, digits and `_` from `j` on ends.
pub open spec fn ident_end(s: Chars, j: int) -> int
    decreases s.len() - j,
{
    if 0 <= j < s.len() && (ascii_alnum(s[j]) || s[j] == '_') {
        ident_end(s, j + 1)
    } else {
        j
    }
}

/// The `{name}` and `{name:` captures of a format string from `i` on, after those met before.
pub open spec fn captures_from(s: Chars, i: int, acc: Seq<Chars>) -> Seq<Chars>
    decreases s.len() - i,
{
    if i < 0 || i >= s.len() {
        acc
    } else if s[i] != '{' {
        captures_from(s, i + 1, acc)
    } else if i + 1 < s.len() && s[i + 1] == '{' {
        captures_from(s, i + 2, acc)
    } else {
        let j = ident_end(s, i + 1);
        let more = if i + 1 < j < s.len() && (s[j] == '}' || s[j] == ':') {
            with_name(acc, s.subrange(i + 1, j))
        } else {
            acc
        };
        if i < j <= s.len() {
            captures_from(s, j, more)
        } else {
            more
        }
    }
}

/// `{name}` / `{name:` captures of a Rust format string: each name is a reference.
pub fn captures(s: &str, out: &mut Vec<String>)
    ensures
        final(out).deep_view() == captures_from(s@, 0, old(out).deep_view()),
{
    let a = chars(s);
    let mut i: usize = 0;
    let ghost whole = captures_from(a@, 0, out.deep_view());
    while i < a.len()
        invariant
            a@ == s@,
            whole == captures_from(a@, i as int, out.deep_view()),
            i <= a.len(),
        decreases a.len() - i,
    {
        if a[i] != '{' {
            i = i + 1;
        } else if i + 1 < a.len() && a[i + 1] == '{' {
            i = i + 2;
        } else {
            let start: usize = i + 1;
            let mut j: usize = start;
            while j < a.len() && (is_ascii_alnum(a[j]) || a[j] == '_')
                invariant
                    start <= j <= a.len(),
                    ident_end(a@, start as int) == ident_end(a@, j as int),
                decreases a.len() - j,
            {
                j = j + 1;
            }
            if j > start && j < a.len() && (a[j] == '}' || a[j] == ':') {
                let name = slice(&a, start, j);
                add_name(out, name.as_str());
            }
            i = j;
        }
    }
}

/// A node that references a name.
pub open spec fn ident_kind(k: Chars) -> bool {
    k == "identifier"@ || k == "shorthand_field_identifier"@ || k == "shorthand_property_identifier"@
}

fn is_ident_kind(k: &str) -> (r: bool)
    ensures
        r == ident_kind(k@),
{
    same(k, "identifier") || same(k, "shorthand_field_identifier") || same(k, "shorthand_property_identifier")
}

/// A comment.
pub open spec fn comment_kind(k: Chars) -> bool {
    k == "comment"@ || k == "line_comment"@ || k == "block_comment"@
}

fn is_comment_kind(k: &str) -> (r: bool)
    ensures
        r == comment_kind(k@),
{
    same(k, "comment") || same(k, "line_comment") || same(k, "block_comment")
}

/// A node up from `cur`, and not above `top`, is a macro's token tree.
pub open spec fn under_macro(t: Nodes, cur: Option<usize>, top: int) -> bool
    decreases
            (match cur {
                Some(p) => p + 1,
                None => 0,
            }),
{
    match cur {
        Some(p) => p >= top && (t[p as int].kind == "token_tree"@ || (match t[p as int].parent {
            Some(q) => q < p && under_macro(t, Some(q), top),
            None => false,
        })),
        None => false,
    }
}

fn is_under_macro(t: &SyntaxTree, n: usize, top: usize) -> (r: bool)
    requires
        t.ok(),
        n < t@.len(),
    ensures
        r == under_macro(t@, t@[n as int].parent, top as int),
{
    let ghost whole = under_macro(t@, t@[n as int].parent, top as int);
    let mut cur: Option<usize> = t.parent(n);
    loop
        invariant
            t.ok(),
            cur matches Some(p) ==> p < t@.len(),
            whole == under_macro(t@, t@[n as int].parent, top as int),
            whole == under_macro(t@, cur, top as int),
        decreases
                (match cur {
                    Some(p) => p + 1,
                    None => 0,
                }),
    {
        let p: usize = match cur {
            Some(p) => p,
            None => return false,
        };
        if p < top {
            return false;
        }
        if t.is(p, "token_tree") {
            return true;
        }
        cur = t.parent(p);
    }
}

/// A string literal whose captures are references: one in a Rust macro.
pub open spec fn capturing(t: Nodes, n: int, top: int, lang: Language) -> bool {
    (t[n].kind == "string_literal"@ || t[n].kind == "raw_string_literal"@) && lang == Language::Rust && under_macro(
        t,
        t[n].parent,
        top,
    )
}

/// The names that the nodes from `n` to `end` reference, after those met before.
pub open spec fn refs_from(t: Nodes, n: int, end: int, top: int, lang: Language, acc: Seq<Chars>) -> Seq<Chars>
    decreases t.len() - n,
{
    if n < 0 || n >= end || end > t.len() {
        acc
    } else {
        let k = t[n].kind;
        let after = t[n].after as int;
        let next = if ident_kind(k) {
            with_name(acc, t[n].text)
        } else if capturing(t, n, top, lang) {
            captures_from(t[n].text, 0, acc)
        } else {
            acc
        };
        if ident_kind(k) || comment_kind(k) || capturing(t, n, top, lang) {
            if n < after <= t.len() {
                refs_from(t, after, end, top, lang, next)
            } else {
                next
            }
        } else {
            refs_from(t, n + 1, end, top, lang, next)
        }
    }
}

/// Every name that a body references: identifiers, shorthand names, and captures inside the string
/// literals of a macro.
pub open spec fn refs_of(t: Nodes, body: int, lang: Language) -> Seq<Chars> {
    refs_from(t, body, t[body].after as int, body, lang, Seq::empty())
}

/// Every name that a body references.
pub fn body_refs(t: &SyntaxTree, body: usize, lang: Language) -> (out: Vec<String>)
    requires
        t.ok(),
        body < t@.len(),
    ensures
        out.deep_view() == refs_of(t@, body as int, lang),
{
    assert(crate::tree::node_ok(t@, body as int));
    assert(t@[body as int] == t.nodes@[body as int].deep_view());
    let end: usize = t.nodes[body].after;
    let mut out: Vec<String> = Vec::new();
    let mut n: usize = body;
    assert(out.deep_view() =~= Seq::<Chars>::empty());
    while n < end
        invariant
            t.ok(),
            end <= t@.len(),
            refs_of(t@, body as int, lang) == refs_from(t@, n as int, end as int, body as int, lang, out.deep_view()),
        decreases t@.len() - n,
    {
        assert(crate::tree::node_ok(t@, n as int));
        assert(t@[n as int] == t.nodes@[n as int].deep_view());
        let k = t.kind(n);
        let after: usize = t.nodes[n].after;
        if is_ident_kind(k) {
            add_name(&mut out, t.text(n));
            n = after;
        } else if is_comment_kind(k) {
            proof {
                assert(capturing(t@, n as int, body as int, lang) ==> k@ == "string_literal"@ || k@ == "raw_string_literal"@);
                kinds_differ();
            }
            n = after;
        } else if (same(k, "string_literal") || same(k, "raw_string_literal")) && lang == Language::Rust && is_under_macro(
            t,
            n,
            body,
        ) {
            captures(t.text(n), &mut out);
            n = after;
        } else {
            n = n + 1;
        }
    }
    out
}

proof fn kinds_differ()
    ensures
        "comment"@ != "string_literal"@,
        "comment"@ != "raw_string_literal"@,
        "line_comment"@ != "string_literal"@,
        "line_comment"@ != "raw_string_literal"@,
        "block_comment"@ != "string_literal"@,
        "block_comment"@ != "raw_string_literal"@,
{
    reveal_strlit("comment");
    reveal_strlit("line_comment");
    reveal_strlit("block_comment");
    reveal_strlit("string_literal");
    reveal_strlit("raw_string_literal");
    assert("comment"@.len() != "string_literal"@.len());
    assert("comment"@.len() != "raw_string_literal"@.len());
    assert("line_comment"@.len() != "string_literal"@.len());
    assert("line_comment"@.len() != "raw_string_literal"@.len());
    assert("block_comment"@.len() != "string_literal"@.len());
    assert("block_comment"@.len() != "raw_string_literal"@.len());
}

// ---------- parameters ----------

/// A name and its declared type.
pub type ParamText = (Chars, Option<Chars>);

/// The text with single blanks.
pub open spec fn squeezed(s: Chars) -> Chars {
    joined(fields_of(s), " "@)
}

fn norm_ws(s: &str) -> (r: String)
    ensures
        r@ == squeezed(s@),
{
    let f = fields(s);
    join(&f, " ")
}

/// A receiver has no slot.
pub open spec fn receiver(name: Chars) -> bool {
    name == "self"@ || name == "cls"@ || name == "this"@
}

fn is_receiver(name: &str) -> (r: bool)
    ensures
        r == receiver(name@),
{
    same(name, "self") || same(name, "cls") || same(name, "this")
}

/// The declared type of a parameter.
pub open spec fn declared(t: Nodes, p: int, lang: Language) -> Option<Chars> {
    match child_of(t, p, "type"@) {
        Some(c) => {
            let s = t[c as int].text;
            Some(
                match lang {
                    Language::Rust | Language::Python => squeezed(s),
                    _ => squeezed(without_leading(trimmed_start(s), ":"@)),
                },
            )
        },
        None => None,
    }
}

/// The first of `kids`, from `k` on, of a kind.
pub open spec fn first_kind(t: Nodes, kids: Seq<usize>, kind: Chars, k: int) -> Option<usize>
    decreases kids.len() - k,
{
    if k < 0 || k >= kids.len() {
        None
    } else if t[kids[k] as int].kind == kind {
        Some(kids[k])
    } else {
        first_kind(t, kids, kind, k + 1)
    }
}

/// The node that names a parameter.
pub open spec fn param_name(t: Nodes, p: int, lang: Language) -> Option<usize> {
    let k = t[p].kind;
    let found = match lang {
        Language::Rust => if k == "parameter"@ {
            child_of(t, p, "pattern"@)
        } else {
            None
        },
        Language::Python => if k == "identifier"@ {
            Some(p as usize)
        } else if k == "typed_parameter"@ {
            first_kind(t, named_kids(t, p), "identifier"@, 0)
        } else if k == "default_parameter"@ || k == "typed_default_parameter"@ {
            child_of(t, p, "name"@)
        } else {
            None
        },
        _ => if k == "required_parameter"@ || k == "optional_parameter"@ {
            child_of(t, p, "pattern"@)
        } else if k == "identifier"@ {
            Some(p as usize)
        } else {
            None
        },
    };
    if is_kind(t, found, "identifier"@) {
        found
    } else {
        None
    }
}

/// A parameter's name and declared type; a bare name declares none. Destructured and variadic
/// parameters have no name, and receivers no slot.
pub open spec fn param_at(t: Nodes, p: int, lang: Language) -> Option<ParamText> {
    match param_name(t, p, lang) {
        Some(c) => {
            let name = t[c as int].text;
            if receiver(name) {
                None
            } else if t[p].kind == "identifier"@ {
                Some((name, None))
            } else {
                Some((name, declared(t, p, lang)))
            }
        },
        None => None,
    }
}

/// The parameters of `kids`, from `k` on, after those met before, at most `max` of them.
pub open spec fn params_from(t: Nodes, kids: Seq<usize>, lang: Language, max: usize, k: int, acc: Seq<ParamText>) -> Seq<ParamText>
    decreases kids.len() - k,
{
    if k < 0 || k >= kids.len() || acc.len() >= max {
        acc
    } else {
        params_from(
            t,
            kids,
            lang,
            max,
            k + 1,
            match param_at(t, kids[k] as int, lang) {
                Some(p) => acc.push(p),
                None => acc,
            },
        )
    }
}

/// The named parameters of a unit with their types, in declared order, at most `max` of them; an
/// arrow function may have one bare parameter.
pub open spec fn unit_params(t: Nodes, n: int, lang: Language, max: usize) -> Seq<ParamText> {
    match child_of(t, n, "parameters"@) {
        Some(ps) => params_from(t, named_kids(t, ps as int), lang, max, 0, Seq::empty()),
        None => match child_of(t, n, "parameter"@) {
            Some(p) => if t[p as int].kind == "identifier"@ && !receiver(t[p as int].text) {
                seq![(t[p as int].text, None)]
            } else {
                Seq::empty()
            },
            None => Seq::empty(),
        },
    }
}

fn type_of(t: &SyntaxTree, p: usize, lang: Language) -> (r: Option<String>)
    requires
        t.ok(),
        p < t@.len(),
    ensures
        r.deep_view() == declared(t@, p as int, lang),
{
    match t.child(p, "type") {
        Some(c) => {
            let s = t.text(c);
            match lang {
                Language::Rust | Language::Python => Some(norm_ws(s)),
                _ => {
                    let a = trim_start(s);
                    let b = trim_leading(a.as_str(), ":");
                    Some(norm_ws(b.as_str()))
                },
            }
        },
        None => None,
    }
}

fn find_kind(t: &SyntaxTree, kids: &Vec<usize>, kind: &str) -> (r: Option<usize>)
    requires
        forall|k: int| 0 <= k < kids.len() ==> #[trigger] kids@[k] < t@.len(),
    ensures
        r == first_kind(t@, kids@, kind@, 0),
        r matches Some(c) ==> c < t@.len(),
{
    let mut k: usize = 0;
    while k < kids.len()
        invariant
            k <= kids.len(),
            forall|k: int| 0 <= k < kids.len() ==> #[trigger] kids@[k] < t@.len(),
            first_kind(t@, kids@, kind@, 0) == first_kind(t@, kids@, kind@, k as int),
        decreases kids.len() - k,
    {
        assert(kids@[k as int] < t@.len());
        if t.is(kids[k], kind) {
            return Some(kids[k]);
        }
        k = k + 1;
    }
    None
}

fn name_node(t: &SyntaxTree, p: usize, lang: Language) -> (r: Option<usize>)
    requires
        t.ok(),
        p < t@.len(),
    ensures
        r == param_name(t@, p as int, lang),
        r matches Some(c) ==> c < t@.len(),
{
    let found = match lang {
        Language::Rust => if t.is(p, "parameter") {
            t.child(p, "pattern")
        } else {
            None
        },
        Language::Python => if t.is(p, "identifier") {
            Some(p)
        } else if t.is(p, "typed_parameter") {
            let kids = t.named_children(p);
            find_kind(t, &kids, "identifier")
        } else if t.is(p, "default_parameter") || t.is(p, "typed_default_parameter") {
            t.child(p, "name")
        } else {
            None
        },
        _ => if t.is(p, "required_parameter") || t.is(p, "optional_parameter") {
            t.child(p, "pattern")
        } else if t.is(p, "identifier") {
            Some(p)
        } else {
            None
        },
    };
    if t.opt_is(found, "identifier") {
        found
    } else {
        None
    }
}

fn read_param(t: &SyntaxTree, p: usize, lang: Language) -> (r: Option<(String, Option<String>)>)
    requires
        t.ok(),
        p < t@.len(),
    ensures
        r.deep_view() == param_at(t@, p as int, lang),
{
    match name_node(t, p, lang) {
        Some(c) => {
            let name = t.text(c);
            if is_receiver(name) {
                None
            } else if t.is(p, "identifier") {
                Some((name.to_owned(), None))
            } else {
                Some((name.to_owned(), type_of(t, p, lang)))
            }
        },
        None => None,
    }
}

/// The named parameters of a unit with their types.
pub fn params_of(t: &SyntaxTree, n: usize, lang: Language, max: usize) -> (out: Vec<(String, Option<String>)>)
    requires
        t.ok(),
        n < t@.len(),
    ensures
        out.deep_view() == unit_params(t@, n as int, lang, max),
{
    let mut out: Vec<(String, Option<String>)> = Vec::new();
    assert(out.deep_view() =~= Seq::<ParamText>::empty());
    match t.child(n, "parameters") {
        Some(ps) => {
            let kids = t.named_children(ps);
            let mut k: usize = 0;
            while k < kids.len() && out.len() < max
                invariant
                    k <= kids.len(),
                    t.ok(),
                    forall|k: int| 0 <= k < kids.len() ==> #[trigger] kids@[k] < t@.len(),
                    out.len() == out.deep_view().len(),
                    params_from(t@, kids@, lang, max, 0, Seq::empty()) == params_from(
                        t@,
                        kids@,
                        lang,
                        max,
                        k as int,
                        out.deep_view(),
                    ),
                decreases kids.len() - k,
            {
                assert(kids@[k as int] < t@.len());
                if let Some(p) = read_param(t, kids[k], lang) {
                    put(&mut out, p);
                }
                k = k + 1;
            }
        },
        None => {
            if let Some(p) = t.child(n, "parameter") {
                if t.is(p, "identifier") && !is_receiver(t.text(p)) {
                    put(&mut out, (t.text(p).to_owned(), None));
                    assert(out.deep_view() =~= seq![(t@[p as int].text, None)]);
                }
            }
        },
    }
    out
}

// ---------- functions left out ----------

/// Why a unit does not own its signature.
#[derive(Debug, Clone, Copy, PartialEq, Eq, Structural)]
pub enum Skip {
    /// A trait, interface or override method, or a callback passed as an argument.
    TraitImpl,
    /// An overload, a dunder or a stub.
    Other,
}

/// A statement that does nothing: `pass`, a docstring, an ellipsis or a comment.
pub open spec fn idle(t: Nodes, s: int) -> bool {
    let k = t[s].kind;
    k == "pass_statement"@ || k == "comment"@ || (k == "expression_statement"@ && (match named_at(t, s, 0) {
        Some(e) => t[e as int].kind == "string"@ || t[e as int].kind == "ellipsis"@,
        None => false,
    }))
}

/// A Python body that does nothing.
pub open spec fn stub(t: Nodes, body: int) -> bool {
    forall|k: int| 0 <= k < named_kids(t, body).len() ==> idle(t, #[trigger] named_kids(t, body)[k] as int)
}

/// Is a Python body one that does nothing?
pub fn python_stub(t: &SyntaxTree, body: usize) -> (r: bool)
    requires
        t.ok(),
        body < t@.len(),
    ensures
        r == stub(t@, body as int),
{
    let kids = t.named_children(body);
    let mut k: usize = 0;
    while k < kids.len()
        invariant
            k <= kids.len(),
            t.ok(),
            kids@ == named_kids(t@, body as int),
            forall|k: int| 0 <= k < kids.len() ==> #[trigger] kids@[k] < t@.len(),
            forall|j: int| 0 <= j < k ==> idle(t@, #[trigger] kids@[j] as int),
        decreases kids.len() - k,
    {
        assert(kids@[k as int] < t@.len());
        let s: usize = kids[k];
        let ok = t.is(s, "pass_statement") || t.is(s, "comment") || (t.is(s, "expression_statement") && (match t.named_child(s, 0) {
            Some(e) => t.is(e, "string") || t.is(e, "ellipsis"),
            None => false,
        }));
        if !ok {
            assert(!idle(t@, kids@[k as int] as int));
            return false;
        }
        k = k + 1;
    }
    true
}

/// The trait or trait impl that a Rust function up from `cur` stands in decides; a function in a
/// function owns its signature.
pub open spec fn rust_skip(t: Nodes, cur: Option<usize>, on: bool) -> Option<Skip>
    decreases
            (match cur {
                Some(p) => p + 1,
                None => 0,
            }),
{
    match cur {
        Some(p) => {
            let k = t[p as int].kind;
            if k == "impl_item"@ {
                if on && child_of(t, p as int, "trait"@) is Some {
                    Some(Skip::TraitImpl)
                } else {
                    None
                }
            } else if k == "trait_item"@ {
                if on {
                    Some(Skip::TraitImpl)
                } else {
                    None
                }
            } else if k == "function_item"@ || k == "source_file"@ {
                None
            } else {
                match t[p as int].parent {
                    Some(q) => if q < p {
                        rust_skip(t, Some(q), on)
                    } else {
                        None
                    },
                    None => None,
                }
            }
        },
        None => None,
    }
}

/// `__name__`.
pub open spec fn dunder(name: Chars) -> bool {
    vstd::utf8::encode_utf8(name).len() > 4 && starts(name, "__"@) && ends(name, "__"@)
}

/// A decorator that marks an overload.
pub open spec fn overload_mark(t: Nodes, d: int) -> bool {
    t[d].kind == "decorator"@ && ends(trimmed(stripped_start(t[d].text, "@"@)), "overload"@)
}

/// A decorated definition that is an overload.
pub open spec fn overloaded(t: Nodes, d: int) -> bool {
    exists|k: int| 0 <= k < named_kids(t, d).len() && overload_mark(t, #[trigger] named_kids(t, d)[k] as int)
}

/// The parent of a node where it has a kind.
pub open spec fn parent_kind(t: Nodes, n: int, kind: Chars) -> Option<usize> {
    match t[n].parent {
        Some(p) => if t[p as int].kind == kind {
            Some(p)
        } else {
            None
        },
        None => None,
    }
}

/// A method of a Python class with superclasses.
pub open spec fn inherited(t: Nodes, n: int) -> bool {
    let holder = match parent_kind(t, n, "decorated_definition"@) {
        Some(d) => d as int,
        None => n,
    };
    match parent_kind(t, holder, "block"@) {
        Some(b) => match parent_kind(t, b as int, "class_definition"@) {
            Some(c) => child_of(t, c as int, "superclasses"@) is Some,
            None => false,
        },
        None => false,
    }
}

/// Why a Python function is left out.
pub open spec fn python_skip(t: Nodes, n: int, body: int, name: Chars, cfg: Clumps) -> Option<Skip> {
    if cfg.skip_dunder && dunder(name) {
        Some(Skip::Other)
    } else if cfg.skip_overloads && (match parent_kind(t, n, "decorated_definition"@) {
        Some(d) => overloaded(t, d as int),
        None => false,
    }) {
        Some(Skip::Other)
    } else if stub(t, body) {
        Some(Skip::Other)
    } else if cfg.skip_trait_impls && inherited(t, n) {
        Some(Skip::TraitImpl)
    } else {
        None
    }
}

/// A node that a callback may stand in on its way to the arguments it is part of.
pub open spec fn wrapping(k: Chars) -> bool {
    k == "object"@ || k == "pair"@ || k == "method_definition"@ || k == "parenthesized_expression"@ || k
        == "as_expression"@ || k == "satisfies_expression"@ || k == "type_assertion"@
}

/// A node up from `cur` is a list of arguments, with nothing between but object literals.
pub open spec fn passed(t: Nodes, cur: Option<usize>) -> bool
    decreases
            (match cur {
                Some(p) => p + 1,
                None => 0,
            }),
{
    match cur {
        Some(p) => {
            let k = t[p as int].kind;
            k == "arguments"@ || (wrapping(k) && (match t[p as int].parent {
                Some(q) => q < p && passed(t, Some(q)),
                None => false,
            }))
        },
        None => false,
    }
}

/// A method of a class with heritage.
pub open spec fn heir(t: Nodes, n: int) -> bool {
    t[n].kind == "method_definition"@ && (match parent_kind(t, n, "class_body"@) {
        Some(b) => match t[b as int].parent {
            Some(c) => exists|k: int|
                0 <= k < t[c as int].children.len() && t[#[trigger] t[c as int].children[k] as int].kind
                    == "class_heritage"@,
            None => false,
        },
        None => false,
    })
}

/// Why a unit is left out.
pub open spec fn skip_of(t: Nodes, n: int, body: int, name: Chars, lang: Language, cfg: Clumps) -> Option<Skip> {
    match lang {
        Language::Rust => rust_skip(t, t[n].parent, cfg.skip_trait_impls),
        Language::Python => python_skip(t, n, body, name, cfg),
        _ => if cfg.skip_trait_impls && (passed(t, t[n].parent) || heir(t, n)) {
            Some(Skip::TraitImpl)
        } else {
            None
        },
    }
}

fn rust_reason(t: &SyntaxTree, n: usize, on: bool) -> (r: Option<Skip>)
    requires
        t.ok(),
        n < t@.len(),
    ensures
        r == rust_skip(t@, t@[n as int].parent, on),
{
    let ghost whole = rust_skip(t@, t@[n as int].parent, on);
    let mut cur: Option<usize> = t.parent(n);
    loop
        invariant
            t.ok(),
            cur matches Some(p) ==> p < t@.len(),
            whole == rust_skip(t@, t@[n as int].parent, on),
            whole == rust_skip(t@, cur, on),
        decreases
                (match cur {
                    Some(p) => p + 1,
                    None => 0,
                }),
    {
        let p: usize = match cur {
            Some(p) => p,
            None => return None,
        };
        if t.is(p, "impl_item") {
            return if on && t.child(p, "trait").is_some() {
                Some(Skip::TraitImpl)
            } else {
                None
            };
        }
        if t.is(p, "trait_item") {
            return if on {
                Some(Skip::TraitImpl)
            } else {
                None
            };
        }
        if t.is(p, "function_item") || t.is(p, "source_file") {
            return None;
        }
        cur = t.parent(p);
    }
}

fn parent_of_kind(t: &SyntaxTree, n: usize, kind: &str) -> (r: Option<usize>)
    requires
        t.ok(),
        n < t@.len(),
    ensures
        r == parent_kind(t@, n as int, kind@),
        r matches Some(p) ==> p < n,
{
    match t.parent(n) {
        Some(p) => if t.is(p, kind) {
            Some(p)
        } else {
            None
        },
        None => None,
    }
}

fn is_overloaded(t: &SyntaxTree, d: usize) -> (r: bool)
    requires
        t.ok(),
        d < t@.len(),
    ensures
        r == overloaded(t@, d as int),
{
    let kids = t.named_children(d);
    let mut k: usize = 0;
    while k < kids.len()
        invariant
            k <= kids.len(),
            t.ok(),
            kids@ == named_kids(t@, d as int),
            forall|k: int| 0 <= k < kids.len() ==> #[trigger] kids@[k] < t@.len(),
            forall|j: int| 0 <= j < k ==> !overload_mark(t@, #[trigger] kids@[j] as int),
        decreases kids.len() - k,
    {
        assert(kids@[k as int] < t@.len());
        let c: usize = kids[k];
        if t.is(c, "decorator") {
            let a = strip_start(t.text(c), "@");
            let b = trim(a.as_str());
            if ends_with(b.as_str(), "overload") {
                assert(overload_mark(t@, kids@[k as int] as int));
                return true;
            }
        }
        k = k + 1;
    }
    false
}

fn is_inherited(t: &SyntaxTree, n: usize) -> (r: bool)
    requires
        t.ok(),
        n < t@.len(),
    ensures
        r == inherited(t@, n as int),
{
    let holder: usize = match parent_of_kind(t, n, "decorated_definition") {
        Some(d) => d,
        None => n,
    };
    match parent_of_kind(t, holder, "block") {
        Some(b) => match parent_of_kind(t, b, "class_definition") {
            Some(c) => t.child(c, "superclasses").is_some(),
            None => false,
        },
        None => false,
    }
}

fn python_reason(t: &SyntaxTree, n: usize, body: usize, name: &str, cfg: &Clumps) -> (r: Option<Skip>)
    requires
        t.ok(),
        n < t@.len(),
        body < t@.len(),
    ensures
        r == python_skip(t@, n as int, body as int, name@, *cfg),
{
    if cfg.skip_dunder && name.as_bytes().len() > 4 && starts_with(name, "__") && ends_with(name, "__") {
        return Some(Skip::Other);
    }
    if cfg.skip_overloads {
        if let Some(d) = parent_of_kind(t, n, "decorated_definition") {
            if is_overloaded(t, d) {
                return Some(Skip::Other);
            }
        }
    }
    if python_stub(t, body) {
        return Some(Skip::Other);
    }
    if cfg.skip_trait_impls && is_inherited(t, n) {
        return Some(Skip::TraitImpl);
    }
    None
}

fn is_passed(t: &SyntaxTree, n: usize) -> (r: bool)
    requires
        t.ok(),
        n < t@.len(),
    ensures
        r == passed(t@, t@[n as int].parent),
{
    let ghost whole = passed(t@, t@[n as int].parent);
    let mut cur: Option<usize> = t.parent(n);
    loop
        invariant
            t.ok(),
            cur matches Some(p) ==> p < t@.len(),
            whole == passed(t@, t@[n as int].parent),
            whole == passed(t@, cur),
        decreases
                (match cur {
                    Some(p) => p + 1,
                    None => 0,
                }),
    {
        let p: usize = match cur {
            Some(p) => p,
            None => return false,
        };
        let k = t.kind(p);
        if same(k, "arguments") {
            return true;
        }
        if !(same(k, "object") || same(k, "pair") || same(k, "method_definition") || same(k, "parenthesized_expression")
            || same(k, "as_expression") || same(k, "satisfies_expression") || same(k, "type_assertion")) {
            return false;
        }
        cur = t.parent(p);
    }
}

fn is_heir(t: &SyntaxTree, n: usize) -> (r: bool)
    requires
        t.ok(),
        n < t@.len(),
    ensures
        r == heir(t@, n as int),
{
    if !t.is(n, "method_definition") {
        return false;
    }
    let b: usize = match parent_of_kind(t, n, "class_body") {
        Some(b) => b,
        None => return false,
    };
    let c: usize = match t.parent(b) {
        Some(c) => c,
        None => return false,
    };
    assert(t@[c as int] == t.nodes@[c as int].deep_view());
    assert(crate::tree::node_ok(t@, c as int));
    let kids = &t.nodes[c].children;
    let mut k: usize = 0;
    while k < kids.len()
        invariant
            k <= kids.len(),
            t.ok(),
            c < t@.len(),
            t@[n as int].kind == "method_definition"@,
            parent_kind(t@, n as int, "class_body"@) == Some(b),
            t@[b as int].parent == Some(c),
            kids@ == t@[c as int].children,
            crate::tree::node_ok(t@, c as int),
            forall|j: int| 0 <= j < k ==> t@[#[trigger] t@[c as int].children[j] as int].kind != "class_heritage"@,
        decreases kids.len() - k,
    {
        assert(t@[c as int].children[k as int] < t@.len());
        if t.is(kids[k], "class_heritage") {
            return true;
        }
        k = k + 1;
    }
    false
}

/// Why a unit is left out: it does not own its signature.
pub fn skip_reason(t: &SyntaxTree, n: usize, body: usize, name: &str, lang: Language, cfg: &Clumps) -> (r: Option<Skip>)
    requires
        t.ok(),
        n < t@.len(),
        body < t@.len(),
    ensures
        r == skip_of(t@, n as int, body as int, name@, lang, *cfg),
{
    match lang {
        Language::Rust => rust_reason(t, n, cfg.skip_trait_impls),
        Language::Python => python_reason(t, n, body, name, cfg),
        _ => if cfg.skip_trait_impls && (is_passed(t, n) || is_heir(t, n)) {
            Some(Skip::TraitImpl)
        } else {
            None
        },
    }
}

// ---------- files ----------

/// A parameter list has a name.
pub open spec fn has_param(ps: Seq<ParamText>, name: Chars) -> bool {
    exists|i: int| 0 <= i < ps.len() && (#[trigger] ps[i]).0 == name
}

/// A parameter list covers a protocol.
pub open spec fn covers(ps: Seq<ParamText>, tuple: Seq<Chars>) -> bool {
    tuple.len() > 0 && forall|k: int| 0 <= k < tuple.len() ==> has_param(ps, #[trigger] tuple[k])
}

/// A parameter list covers some protocol.
pub open spec fn protocol(ps: Seq<ParamText>, tuples: Seq<Seq<Chars>>) -> bool {
    exists|k: int| 0 <= k < tuples.len() && covers(ps, #[trigger] tuples[k])
}

/// A parameter is unused: by its prefix, or because nothing references it.
pub open spec fn unused(name: Chars, prefix: Chars, refs: Seq<Chars>) -> bool {
    (prefix.len() > 0 && starts(name, prefix)) || !refs.contains(name)
}

/// The parameters of a function with the references of its body.
pub open spec fn slots_of(ps: Seq<ParamText>, prefix: Chars, refs: Seq<Chars>) -> Seq<ParamView> {
    Seq::new(
        ps.len(),
        |i: int| ParamView { name: ps[i].0, ty: ps[i].1, unused: unused(ps[i].0, prefix, refs) },
    )
}

/// A file as far as it has been read, with the names that count for a later one of the same name.
pub struct Reading {
    pub side: SideView,
    pub seen: Seq<Chars>,
}

/// A file with one more unit.
pub open spec fn with_unit(r: Reading, t: Nodes, u: UnitView, lang: Language, regions: Seq<TestRegion>, cfg: Clumps) -> Reading {
    let n = u.node as int;
    if lang == Language::Rust && within(regions, t[n].start) {
        r
    } else {
        match child_of(t, n, "body"@) {
            None => r,
            Some(body) => {
                let refs = refs_of(t, body as int, lang);
                let others = with_names(r.side.other_refs, refs);
                match skip_of(t, n, body as int, bare(u.name), lang, cfg) {
                    Some(Skip::TraitImpl) => Reading {
                        side: SideView {
                            skipped_trait_impls: r.side.skipped_trait_impls + 1,
                            other_refs: others,
                            ..r.side
                        },
                        ..r
                    },
                    Some(Skip::Other) => Reading {
                        side: SideView { skipped_other: r.side.skipped_other + 1, other_refs: others, ..r.side },
                        ..r
                    },
                    None => if cfg.dedupe_same_name_in_file && r.seen.contains(u.name) {
                        Reading {
                            side: SideView {
                                skipped_duplicates: r.side.skipped_duplicates + 1,
                                other_refs: others,
                                ..r.side
                            },
                            ..r
                        }
                    } else {
                        let seen = r.seen.push(u.name);
                        let ps = unit_params(t, n, lang, cfg.max_params);
                        if protocol(ps, cfg.protocol_tuples.deep_view()) {
                            Reading {
                                side: SideView {
                                    skipped_protocol: r.side.skipped_protocol + 1,
                                    other_refs: others,
                                    ..r.side
                                },
                                seen,
                            }
                        } else {
                            Reading {
                                side: SideView {
                                    functions: r.side.functions.push(
                                        FnView {
                                            name: u.name,
                                            line: t[n].line,
                                            params: slots_of(ps, cfg.unused_prefix@, refs),
                                            refs,
                                        },
                                    ),
                                    ..r.side
                                },
                                seen,
                            }
                        }
                    },
                }
            },
        }
    }
}

/// A file with the units from `k` on.
pub open spec fn with_units(
    r: Reading,
    t: Nodes,
    units: Seq<UnitView>,
    k: int,
    lang: Language,
    regions: Seq<TestRegion>,
    cfg: Clumps,
) -> Reading
    decreases units.len() - k,
{
    if k < 0 || k >= units.len() {
        r
    } else {
        with_units(with_unit(r, t, units[k], lang, regions, cfg), t, units, k + 1, lang, regions, cfg)
    }
}

/// A node is a unit.
pub open spec fn is_unit(units: Seq<UnitView>, n: int) -> bool {
    exists|k: int| 0 <= k < units.len() && (#[trigger] units[k]).node == n
}

/// What references nothing: comments and imports.
pub open spec fn silent_kind(k: Chars) -> bool {
    comment_kind(k) || k == "use_declaration"@ || k == "extern_crate_declaration"@ || k == "import_statement"@ || k
        == "import_from_statement"@ || k == "future_import_statement"@
}

fn is_silent_kind(k: &str) -> (r: bool)
    ensures
        r == silent_kind(k@),
{
    is_comment_kind(k) || same(k, "use_declaration") || same(k, "extern_crate_declaration") || same(k, "import_statement")
        || same(k, "import_from_statement") || same(k, "future_import_statement")
}

/// A node that stands apart from what is outside the units: a unit, a comment, an import or a test
/// region.
pub open spec fn apart(t: Nodes, n: int, units: Seq<UnitView>, lang: Language, regions: Seq<TestRegion>) -> bool {
    is_unit(units, n) || silent_kind(t[n].kind) || (lang == Language::Rust && within(regions, t[n].start))
}

/// The names that the nodes from `n` on reference outside every unit, after those met before.
pub open spec fn outside_from(
    t: Nodes,
    n: int,
    units: Seq<UnitView>,
    lang: Language,
    regions: Seq<TestRegion>,
    acc: Seq<Chars>,
) -> Seq<Chars>
    decreases t.len() - n,
{
    if n < 0 || n >= t.len() {
        acc
    } else {
        let after = t[n].after as int;
        let skip = apart(t, n, units, lang, regions);
        let next = if !skip && ident_kind(t[n].kind) {
            with_name(acc, t[n].text)
        } else {
            acc
        };
        if skip || ident_kind(t[n].kind) {
            if n < after <= t.len() {
                outside_from(t, after, units, lang, regions, next)
            } else {
                next
            }
        } else {
            outside_from(t, n + 1, units, lang, regions, next)
        }
    }
}

/// A file with nothing read.
pub open spec fn blank_side(path: Chars) -> SideView {
    SideView {
        path,
        functions: Seq::empty(),
        skipped_trait_impls: 0,
        skipped_protocol: 0,
        skipped_other: 0,
        skipped_duplicates: 0,
        other_refs: Seq::empty(),
    }
}

/// The functions of a file on its tree; none where parsing failed.
pub open spec fn side_of(root: Option<Nodes>, f: SourceFile, regions: Seq<TestRegion>, cfg: Clumps) -> SideView {
    match root {
        Some(t) => {
            let units = tree_units(t, f.lang);
            let r = with_units(Reading { side: blank_side(f.path@), seen: Seq::empty() }, t, units, 0, f.lang, regions, cfg);
            SideView { other_refs: outside_from(t, 0, units, f.lang, regions, r.side.other_refs), ..r.side }
        },
        None => blank_side(f.path@),
    }
}

/// The test regions of a file: Rust alone marks them.
pub open spec fn regions_in(root: Option<Nodes>, lang: Language) -> Seq<TestRegion> {
    match root {
        Some(t) => if lang == Language::Rust {
            regions_from(t, 0)
        } else {
            Seq::empty()
        },
        None => Seq::empty(),
    }
}

/// The functions of a file on some reading of its text.
pub open spec fn parsed_side(r: SideView, f: SourceFile, cfg: Clumps) -> bool {
    exists|root: Option<Nodes>|
        #[trigger] reads_as(f.lang, f.content@, root) && r == side_of(root, f, regions_in(root, f.lang), cfg)
}

/// The functions of the source files.
pub open spec fn sides_of(list: Seq<SideView>, files: Seq<SourceFile>, cfg: Clumps) -> bool
    decreases files.len(),
{
    if files.len() == 0 {
        list.len() == 0
    } else if files.last().kind == FileKind::Source {
        list.len() > 0 && parsed_side(list.last(), files.last(), cfg) && sides_of(list.drop_last(), files.drop_last(), cfg)
    } else {
        sides_of(list, files.drop_last(), cfg)
    }
}

fn names_param(ps: &Vec<(String, Option<String>)>, name: &str) -> (r: bool)
    ensures
        r == has_param(ps.deep_view(), name@),
{
    let ghost view = ps.deep_view();
    let mut i: usize = 0;
    while i < ps.len()
        invariant
            i <= ps.len(),
            view == ps.deep_view(),
            forall|j: int| 0 <= j < i ==> (#[trigger] view[j]).0 != name@,
        decreases ps.len() - i,
    {
        assert(view[i as int] == ps@[i as int].deep_view());
        if same(ps[i].0.as_str(), name) {
            assert(view[i as int].0 == name@);
            return true;
        }
        i = i + 1;
    }
    false
}

fn does_cover(ps: &Vec<(String, Option<String>)>, tuple: &Vec<String>) -> (r: bool)
    ensures
        r == covers(ps.deep_view(), tuple.deep_view()),
{
    if tuple.len() == 0 {
        return false;
    }
    let ghost view = tuple.deep_view();
    let mut k: usize = 0;
    while k < tuple.len()
        invariant
            k <= tuple.len(),
            view == tuple.deep_view(),
            forall|j: int| 0 <= j < k ==> has_param(ps.deep_view(), #[trigger] view[j]),
        decreases tuple.len() - k,
    {
        assert(view[k as int] == tuple@[k as int]@);
        if !names_param(ps, tuple[k].as_str()) {
            assert(!has_param(ps.deep_view(), view[k as int]));
            return false;
        }
        k = k + 1;
    }
    true
}

fn is_protocol(ps: &Vec<(String, Option<String>)>, tuples: &Vec<Vec<String>>) -> (r: bool)
    ensures
        r == protocol(ps.deep_view(), tuples.deep_view()),
{
    let ghost view = tuples.deep_view();
    let mut k: usize = 0;
    while k < tuples.len()
        invariant
            k <= tuples.len(),
            view == tuples.deep_view(),
            forall|j: int| 0 <= j < k ==> !covers(ps.deep_view(), #[trigger] view[j]),
        decreases tuples.len() - k,
    {
        assert(view[k as int] == tuples@[k as int].deep_view());
        if does_cover(ps, &tuples[k]) {
            assert(covers(ps.deep_view(), view[k as int]));
            return true;
        }
        k = k + 1;
    }
    false
}

fn make_slots(ps: Vec<(String, Option<String>)>, prefix: &str, refs: &Vec<String>) -> (out: Vec<Param>)
    ensures
        out.deep_view() == slots_of(ps.deep_view(), prefix@, refs.deep_view()),
{
    let ghost view = ps.deep_view();
    let ghost want = slots_of(view, prefix@, refs.deep_view());
    let mut out: Vec<Param> = Vec::new();
    let mut i: usize = 0;
    let marked = !prefix.is_empty();
    proof {
        assert(marked == (prefix@.len() > 0));
    }
    while i < ps.len()
        invariant
            i <= ps.len(),
            i == out.len(),
            view == ps.deep_view(),
            want == slots_of(view, prefix@, refs.deep_view()),
            marked == (prefix@.len() > 0),
            forall|j: int| 0 <= j < i ==> (#[trigger] out@[j]).deep_view() == want[j],
        decreases ps.len() - i,
    {
        let p = &ps[i];
        assert(view[i as int] == p.deep_view());
        let name = p.0.as_str();
        let unused = (marked && starts_with(name, prefix)) || !list_has(refs, name);
        let ty = match &p.1 {
            Some(s) => Some(s.as_str().to_owned()),
            None => None,
        };
        let x = Param { name: name.to_owned(), ty, unused };
        assert(x.deep_view() == want[i as int]);
        out.push(x);
        i = i + 1;
    }
    assert(out.deep_view() =~= want);
    out
}

fn has_unit(units: &Vec<Unit>, n: usize) -> (r: bool)
    ensures
        r == is_unit(units.deep_view(), n as int),
{
    let ghost view = units.deep_view();
    let mut k: usize = 0;
    while k < units.len()
        invariant
            k <= units.len(),
            view == units.deep_view(),
            forall|j: int| 0 <= j < k ==> (#[trigger] view[j]).node != n,
        decreases units.len() - k,
    {
        assert(view[k as int] == units@[k as int].deep_view());
        if units[k].node == n {
            assert(view[k as int].node == n);
            return true;
        }
        k = k + 1;
    }
    false
}

fn blank(path: &str) -> (r: FileSide)
    ensures
        r.deep_view() == blank_side(path@),
{
    let r = FileSide {
        path: path.to_owned(),
        functions: Vec::new(),
        skipped_trait_impls: 0,
        skipped_protocol: 0,
        skipped_other: 0,
        skipped_duplicates: 0,
        other_refs: Vec::new(),
    };
    assert(r.functions.deep_view() =~= Seq::<FnView>::empty());
    assert(r.other_refs.deep_view() =~= Seq::<Chars>::empty());
    r
}

/// How many units a side has counted at most, in each of its counts.
spec fn counted(s: FileSide, k: int) -> bool {
    s.skipped_trait_impls <= k && s.skipped_protocol <= k && s.skipped_other <= k && s.skipped_duplicates <= k
}

#[verifier::rlimit(40)]
fn read_unit(
    side: &mut FileSide,
    seen: &mut Vec<String>,
    t: &SyntaxTree,
    u: &Unit,
    lang: Language,
    regions: &Vec<TestRegion>,
    cfg: &Clumps,
    k: Ghost<int>,
)
    requires
        t.ok(),
        u.node < t@.len(),
        counted(*old(side), k@),
        k@ < usize::MAX,
    ensures
        (Reading { side: final(side).deep_view(), seen: final(seen).deep_view() }) == with_unit(
            Reading { side: old(side).deep_view(), seen: old(seen).deep_view() },
            t@,
            u.deep_view(),
            lang,
            regions@,
            *cfg,
        ),
        counted(*final(side), k@ + 1),
{
    let n: usize = u.node;
    assert(t@[n as int] == t.nodes@[n as int].deep_view());
    if lang == Language::Rust && contains(regions, t.nodes[n].start) {
        return;
    }
    let body: usize = match t.child(n, "body") {
        Some(b) => b,
        None => return,
    };
    let refs = body_refs(t, body, lang);
    let short = bare_of(u.name.as_str());
    match skip_reason(t, n, body, short.as_str(), lang, cfg) {
        Some(Skip::TraitImpl) => {
            side.skipped_trait_impls = side.skipped_trait_impls + 1;
            add_names(&mut side.other_refs, &refs);
            return;
        },
        Some(Skip::Other) => {
            side.skipped_other = side.skipped_other + 1;
            add_names(&mut side.other_refs, &refs);
            return;
        },
        None => {},
    }
    if cfg.dedupe_same_name_in_file && list_has(seen, u.name.as_str()) {
        side.skipped_duplicates = side.skipped_duplicates + 1;
        add_names(&mut side.other_refs, &refs);
        return;
    }
    put(seen, u.name.as_str().to_owned());
    let ps = params_of(t, n, lang, cfg.max_params);
    if is_protocol(&ps, &cfg.protocol_tuples) {
        side.skipped_protocol = side.skipped_protocol + 1;
        add_names(&mut side.other_refs, &refs);
        return;
    }
    let params = make_slots(ps, cfg.unused_prefix.as_str(), &refs);
    put(&mut side.functions, FnSite { name: u.name.as_str().to_owned(), line: t.nodes[n].line, params, refs });
}

/// Collects the functions of files.
pub struct Walker<'a> {
    pub cfg: &'a Clumps,
}

impl<'a> Walker<'a> {
    /// A walker with its settings.
    pub fn new(cfg: &'a Clumps) -> (r: Self)
        ensures
            r.cfg == cfg,
    {
        Walker { cfg }
    }

    /// The functions of one file, on a tree that has been parsed (`None` where parsing failed).
    pub fn file_side(&self, root: Option<&SyntaxTree>, file: &SourceFile, regions: &Vec<TestRegion>) -> (r: FileSide)
        requires
            root matches Some(t) ==> t.ok(),
        ensures
            r.deep_view() == side_of(
                match root {
                    Some(t) => Some(t@),
                    None => None,
                },
                *file,
                regions@,
                *self.cfg,
            ),
    {
        let mut side = blank(file.path.as_str());
        let t = match root {
            Some(t) => t,
            None => return side,
        };
        let lang = file.lang;
        let units = unit_nodes(t, lang);
        let ghost uv = units.deep_view();
        let mut seen: Vec<String> = Vec::new();
        let mut k: usize = 0;
        assert(seen.deep_view() =~= Seq::<Chars>::empty());
        let ghost whole = with_units(
            Reading { side: side.deep_view(), seen: seen.deep_view() },
            t@,
            uv,
            0,
            lang,
            regions@,
            *self.cfg,
        );
        while k < units.len()
            invariant
                k <= units.len(),
                t.ok(),
                uv == units.deep_view(),
                forall|i: int| 0 <= i < units.len() ==> (#[trigger] units@[i]).node < t@.len(),
                counted(side, k as int),
                whole == with_units(
                    Reading { side: side.deep_view(), seen: seen.deep_view() },
                    t@,
                    uv,
                    k as int,
                    lang,
                    regions@,
                    *self.cfg,
                ),
            decreases units.len() - k,
        {
            assert(uv[k as int] == units@[k as int].deep_view());
            assert(units@[k as int].node < t@.len());
            read_unit(&mut side, &mut seen, t, &units[k], lang, regions, self.cfg, Ghost(k as int));
            k = k + 1;
        }
        let ghost before = side.deep_view();
        let mut n: usize = 0;
        while n < t.len()
            invariant
                t.ok(),
                uv == units.deep_view(),
                n <= t@.len(),
                outside_from(t@, 0, uv, lang, regions@, before.other_refs) == outside_from(
                    t@,
                    n as int,
                    uv,
                    lang,
                    regions@,
                    side.other_refs.deep_view(),
                ),
                side.deep_view() == (SideView { other_refs: side.other_refs.deep_view(), ..before }),
            decreases t@.len() - n,
        {
            assert(crate::tree::node_ok(t@, n as int));
            assert(t@[n as int] == t.nodes@[n as int].deep_view());
            let after: usize = t.nodes[n].after;
            let kind = t.kind(n);
            if is_silent_kind(kind) || has_unit(&units, n) || (lang == Language::Rust && contains(regions, t.nodes[n].start)) {
                n = after;
            } else if is_ident_kind(kind) {
                add_name(&mut side.other_refs, t.text(n));
                n = after;
            } else {
                n = n + 1;
            }
        }
        side
    }

    /// The functions of one file, parsed here.
    pub fn parse_side(&self, file: &SourceFile) -> (r: FileSide)
        ensures
            parsed_side(r.deep_view(), *file, *self.cfg),
    {
        let tree = SyntaxTree::parse(file.lang, file.content.as_str());
        let ghost root = opt_nodes(tree);
        let regions: Vec<TestRegion> = match &tree {
            Some(t) => if file.lang == Language::Rust {
                test_regions(t)
            } else {
                Vec::new()
            },
            None => Vec::new(),
        };
        assert(regions@ =~= regions_in(root, file.lang));
        let r = match &tree {
            Some(t) => self.file_side(Some(t), file, &regions),
            None => self.file_side(None, file, &regions),
        };
        assert(reads_as(file.lang, file.content@, root));
        r
    }
}

/// The functions of the source files, one parse each.
pub fn index_all(files: &Vec<SourceFile>, cfg: &Clumps) -> (out: Vec<FileSide>)
    ensures
        sides_of(out.deep_view(), files@, *cfg),
{
    let w = Walker::new(cfg);
    let mut out: Vec<FileSide> = Vec::new();
    let mut k: usize = 0;
    assert(files@.take(0) =~= Seq::<SourceFile>::empty());
    while k < files.len()
        invariant
            k <= files.len(),
            w.cfg == cfg,
            sides_of(out.deep_view(), files@.take(k as int), *cfg),
        decreases files.len() - k,
    {
        assert(files@.take(k + 1).drop_last() =~= files@.take(k as int));
        if files[k].kind == FileKind::Source {
            let ghost was = out.deep_view();
            let side = w.parse_side(&files[k]);
            put(&mut out, side);
            assert(out.deep_view().drop_last() =~= was);
        }
        k = k + 1;
    }
    assert(files@.take(files@.len() as int) =~= files@);
    out
}

} // verus!
