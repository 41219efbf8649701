//! What one file refers to: crates, features and fields, and the config structs it declares.

use vstd::prelude::*;

use crate::config::Declared;
use crate::dead::walk::{head, head_of};
use crate::discover::{FileKind, SourceFile};
use crate::lang::Language;
use crate::names::{bumped, no_refs, RefCount};
use crate::patterns::{pattern_hit, Pattern};
use crate::regions::{regions_from, test_regions, within, TestRegion};
use crate::text::{
    after_last, chars, contains, ends, ends_with, find, find_from, has_char, holds, join, joined, last_piece, leading_run,
    list_has, pieces, put, run_of, same, slice, split, strip_end, strip_prefix, strip_start, stripped_end,
    stripped_start, tail_run, trailing_run, trim, trim_start, trim_trailing, trimmed, trimmed_start,
    without_prefix, without_trailing, Chars,
};
use crate::tree::{after_of, before_of, child_of, is_kind, named_at, named_kids, opt_nodes, reads_as, Nodes, SyntaxTree};

verus! {

/// One field of a `Deserialize`-derived struct.
pub struct FieldDecl {
    /// The Rust identifier: what reads are keyed by.
    pub name: String,
    /// The serialized key (`#[serde(rename = "…")]`), what docs and the section path use.
    pub key: String,
    pub line: usize,
    /// The bare type name when the type is a plain identifier or `Option<T>` / `Box<T>` / `Vec<T>` /
    /// a map's value: the roll-up link to another candidate struct.
    pub ty: Option<String>,
    /// `#[serde(skip)]` (or `skip_deserializing`): never a knob.
    pub skip: bool,
}

/// A [`FieldDecl`] by its contents.
pub struct FieldView {
    pub name: Chars,
    pub key: Chars,
    pub line: usize,
    pub ty: Option<Chars>,
    pub skip: bool,
}

impl DeepView for FieldDecl {
    type V = FieldView;

    open spec fn deep_view(&self) -> FieldView {
        FieldView { name: self.name@, key: self.key@, line: self.line, ty: self.ty.deep_view(), skip: self.skip }
    }
}

/// A struct that derives `Deserialize`.
pub struct StructDecl {
    pub name: String,
    pub start_line: usize,
    pub end_line: usize,
    pub fields: Vec<FieldDecl>,
    pub deny_unknown_fields: bool,
    pub in_test: bool,
}

/// A [`StructDecl`] by its contents.
pub struct StructView {
    pub name: Chars,
    pub start_line: usize,
    pub end_line: usize,
    pub fields: Seq<FieldView>,
    pub deny_unknown_fields: bool,
    pub in_test: bool,
}

impl DeepView for StructDecl {
    type V = StructView;

    open spec fn deep_view(&self) -> StructView {
        StructView {
            name: self.name@,
            start_line: self.start_line,
            end_line: self.end_line,
            fields: self.fields.deep_view(),
            deny_unknown_fields: self.deny_unknown_fields,
            in_test: self.in_test,
        }
    }
}

/// A file's side of the pass. Rust only; other grammars leave everything empty.
pub struct FileSide {
    pub path: String,
    pub rust: bool,
    /// A test file: every reference is test context.
    pub test_file: bool,
    /// Crate references (the leftmost path segment), each with whether it sits in test context.
    pub crate_refs: Vec<(String, bool)>,
    /// `feature = "x"` triples inside any token tree (`#[cfg]`, `cfg!`, `quote!`), and
    /// `cargo:rustc-cfg=feature="x"` literals in a build script.
    pub feature_refs: Vec<String>,
    /// `CARGO_FEATURE_<X>` suffixes read by a build script (uppercased, `-` -> `_`).
    pub build_feature_env: Vec<String>,
    /// `#[cfg(test)] mod x;` names: the resolved file is test context.
    pub cfg_test_mods: Vec<String>,
    /// `#![allow(warnings)]` / `#![allow(unused)]`: (line, attribute text).
    pub lint_silenced: Option<(usize, String)>,
    pub structs: Vec<StructDecl>,
    /// Type names that are the target of a deserialise call (`toml::from_str::<T>`, `let x: T =
    /// serde_json::from_str(…)`), with the format crate's name; the first of a name counts.
    pub consumed_types: Vec<(String, String)>,
    /// Field reads (`.field`, `Struct { field, .. }`, `v["field"]`) outside `impl Default` /
    /// `Serialize` / `Deserialize` bodies, each with whether it sits in test context.
    pub field_reads: Vec<(String, bool)>,
    /// String literals that look like a config file name (`scry.toml`), in order.
    pub config_literals: Vec<String>,
}

/// A [`FileSide`] by its contents.
pub struct SideView {
    pub path: Chars,
    pub rust: bool,
    pub test_file: bool,
    pub crate_refs: Seq<(Chars, bool)>,
    pub feature_refs: Seq<Chars>,
    pub build_feature_env: Seq<Chars>,
    pub cfg_test_mods: Seq<Chars>,
    pub lint_silenced: Option<(usize, Chars)>,
    pub structs: Seq<StructView>,
    pub consumed_types: Seq<(Chars, Chars)>,
    pub field_reads: Seq<(Chars, bool)>,
    pub config_literals: Seq<Chars>,
}

impl DeepView for FileSide {
    type V = SideView;

    open spec fn deep_view(&self) -> SideView {
        SideView {
            path: self.path@,
            rust: self.rust,
            test_file: self.test_file,
            crate_refs: self.crate_refs.deep_view(),
            feature_refs: self.feature_refs.deep_view(),
            build_feature_env: self.build_feature_env.deep_view(),
            cfg_test_mods: self.cfg_test_mods.deep_view(),
            lint_silenced: self.lint_silenced.deep_view(),
            structs: self.structs.deep_view(),
            consumed_types: self.consumed_types.deep_view(),
            field_reads: self.field_reads.deep_view(),
            config_literals: self.config_literals.deep_view(),
        }
    }
}

/// A file that refers to nothing.
pub open spec fn empty_side(path: Chars, rust: bool, test_file: bool) -> SideView {
    SideView {
        path,
        rust,
        test_file,
        crate_refs: Seq::empty(),
        feature_refs: Seq::empty(),
        build_feature_env: Seq::empty(),
        cfg_test_mods: Seq::empty(),
        lint_silenced: None,
        structs: Seq::empty(),
        consumed_types: Seq::empty(),
        field_reads: Seq::empty(),
        config_literals: Seq::empty(),
    }
}

/// How often a list of references names `name`, by context.
pub open spec fn refs_in(list: Seq<(Chars, bool)>, name: Chars) -> RefCount
    decreases list.len(),
{
    if list.len() == 0 {
        no_refs()
    } else if list.last().0 == name {
        bumped(refs_in(list.drop_last(), name), list.last().1)
    } else {
        refs_in(list.drop_last(), name)
    }
}

/// How often a list of references names `name`, by context.
pub fn count_refs(list: &Vec<(String, bool)>, name: &str) -> (r: RefCount)
    ensures
        r == refs_in(list.deep_view(), name@),
{
    let ghost view = list.deep_view();
    let mut r = RefCount { prod: 0, test: 0 };
    let mut k: usize = 0;
    assert(view.take(0) =~= Seq::<(Chars, bool)>::empty());
    while k < list.len()
        invariant
            k <= list.len(),
            view == list.deep_view(),
            r == refs_in(view.take(k as int), name@),
        decreases list.len() - k,
    {
        assert(view.take(k + 1).drop_last() =~= view.take(k as int));
        assert(view[k as int] == list@[k as int].deep_view());
        if same(list[k].0.as_str(), name) {
            r.bump(list[k].1);
        }
        k = k + 1;
    }
    assert(view.take(view.len() as int) =~= view);
    r
}

impl FileSide {
    /// A file that refers to nothing.
    pub fn new(path: &str, rust: bool, test_file: bool) -> (r: FileSide)
        ensures
            r.deep_view() == empty_side(path@, rust, test_file),
    {
        let r = FileSide {
            path: path.to_owned(),
            rust,
            test_file,
            crate_refs: Vec::new(),
            feature_refs: Vec::new(),
            build_feature_env: Vec::new(),
            cfg_test_mods: Vec::new(),
            lint_silenced: None,
            structs: Vec::new(),
            consumed_types: Vec::new(),
            field_reads: Vec::new(),
            config_literals: Vec::new(),
        };
        assert(r.crate_refs.deep_view() =~= Seq::<(Chars, bool)>::empty());
        assert(r.feature_refs.deep_view() =~= Seq::<Chars>::empty());
        assert(r.structs.deep_view() =~= Seq::<StructView>::empty());
        assert(r.consumed_types.deep_view() =~= Seq::<(Chars, Chars)>::empty());
        r
    }

    /// References to the crate `name`, by context.
    pub fn crate_refs_of(&self, name: &str) -> (r: RefCount)
        ensures
            r == refs_in(self.deep_view().crate_refs, name@),
    {
        count_refs(&self.crate_refs, name)
    }

    /// Reads of the field `name`, by context.
    pub fn field_reads_of(&self, name: &str) -> (r: RefCount)
        ensures
            r == refs_in(self.deep_view().field_reads, name@),
    {
        count_refs(&self.field_reads, name)
    }
}

// ---------- deserialise calls ----------

/// The format crate where `expr` calls `call`, whatever stands before it: `toml` of
/// `toml::from_str(…)`.
pub open spec fn format_by(expr: Chars, call: Chars) -> Option<Chars> {
    match find_from(expr, call, 0) {
        None => None,
        Some(i) => {
            let end = i + call.len();
            if end == expr.len() || expr[end] == '(' || expr[end] == ':' {
                let krate = tail_run(without_trailing(expr.take(i), "::"@), "_"@);
                Some(if krate.len() == 0 {
                    "a config file"@
                } else {
                    krate
                })
            } else {
                None
            }
        },
    }
}

/// The first of two that is there.
pub open spec fn or_else(a: Option<Chars>, b: Option<Chars>) -> Option<Chars> {
    if a is Some {
        a
    } else {
        b
    }
}

/// The format crate of a deserialise call in `expr` (`toml::from_str(…)` -> `toml`).
pub open spec fn format_of(expr: Chars) -> Option<Chars> {
    or_else(
        format_by(expr, "from_str"@),
        or_else(
            format_by(expr, "from_slice"@),
            or_else(
                format_by(expr, "from_reader"@),
                or_else(
                    format_by(expr, "from_value"@),
                    or_else(format_by(expr, "try_into"@), format_by(expr, "try_from"@)),
                ),
            ),
        ),
    )
}

fn called_format(expr: &str, call: &str) -> (r: Option<String>)
    ensures
        r.deep_view() == format_by(expr@, call@),
{
    let v = chars(expr);
    let p = chars(call);
    match find(&v, &p, 0) {
        None => None,
        Some(i) => {
            proof {
                crate::text::find_is_first(expr@, call@, 0);
            }
            let end: usize = i + p.len();
            if end == v.len() || v[end] == '(' || v[end] == ':' {
                let before = trim_trailing(slice(&v, 0, i).as_str(), "::");
                assert(expr@.take(i as int) =~= expr@.subrange(0, i as int));
                let krate = trailing_run(before.as_str(), "_");
                if krate.as_str().is_empty() {
                    Some("a config file".to_owned())
                } else {
                    Some(krate)
                }
            } else {
                None
            }
        },
    }
}

/// The format crate of a deserialise call in `expr` text (`toml::from_str(…)` -> `toml`).
pub fn deserialise_format(expr: &str) -> (r: Option<String>)
    ensures
        r.deep_view() == format_of(expr@),
{
    if let Some(f) = called_format(expr, "from_str") {
        return Some(f);
    }
    if let Some(f) = called_format(expr, "from_slice") {
        return Some(f);
    }
    if let Some(f) = called_format(expr, "from_reader") {
        return Some(f);
    }
    if let Some(f) = called_format(expr, "from_value") {
        return Some(f);
    }
    if let Some(f) = called_format(expr, "try_into") {
        return Some(f);
    }
    called_format(expr, "try_from")
}

/// What a walk reads besides the tree.
pub struct Setting<'a> {
    pub regions: &'a Vec<TestRegion>,
    pub test_file: bool,
    /// The file is a build script.
    pub build: bool,
    /// Names of methods of the write side.
    pub writes: &'a Pattern,
    /// Names of config files.
    pub literals: &'a Pattern,
}

/// A [`Setting`] by its contents.
pub struct SettingView {
    pub regions: Seq<TestRegion>,
    pub test_file: bool,
    pub build: bool,
    pub writes: Chars,
}

impl<'a> View for Setting<'a> {
    type V = SettingView;

    open spec fn view(&self) -> SettingView {
        SettingView { regions: self.regions@, test_file: self.test_file, build: self.build, writes: self.writes@.0 }
    }
}

impl<'a> Setting<'a> {
    /// The patterns are those of the pass.
    pub open spec fn ok(&self) -> bool {
        !self.writes@.1 && self.literals@ == (config_names(), false)
    }
}

// ---------- what is noted ----------

/// One more reference to a crate.
pub open spec fn crate_added(s: SideView, name: Chars, test: bool) -> SideView {
    if name.len() == 0 {
        s
    } else {
        SideView { crate_refs: s.crate_refs.push((name, test)), ..s }
    }
}

/// One more read of a field.
pub open spec fn read_added(s: SideView, name: Chars, test: bool) -> SideView {
    SideView { field_reads: s.field_reads.push((name, test)), ..s }
}

/// One more check of a feature.
pub open spec fn feature_added(s: SideView, name: Chars) -> SideView {
    if name.len() == 0 {
        s
    } else {
        SideView { feature_refs: s.feature_refs.push(name), ..s }
    }
}

/// One more type that is read from a format.
pub open spec fn consumed_added(s: SideView, name: Chars, format: Chars) -> SideView {
    SideView { consumed_types: s.consumed_types.push((name, format)), ..s }
}

/// The text of a literal without its quotes and prefixes.
pub open spec fn unquoted(text: Chars) -> Chars {
    stripped_end(stripped_start(stripped_start(text, "r#b"@), "\""@), "\"#"@)
}

/// The feature a `cargo:rustc-cfg=feature="x"` literal sets.
pub open spec fn cfg_feature(inner: Chars) -> Chars {
    match find_from(inner, "feature"@, 0) {
        Some(i) => {
            let after = inner.subrange(i + 7, inner.len() as int);
            run_of(stripped_start(trimmed_start(stripped_start(trimmed_start(after), "="@)), "\\\""@), "_-"@)
        },
        None => Seq::empty(),
    }
}

/// The feature whose environment name a literal holds.
pub open spec fn env_feature(inner: Chars) -> Chars {
    match without_prefix(inner, "CARGO_FEATURE_"@) {
        Some(rest) => run_of(rest, "_"@),
        None => Seq::empty(),
    }
}

/// What the config files of a program are called.
pub open spec fn config_names() -> Chars {
    "^[\\w.-]+\\.(toml|ya?ml|json|json5|ini|cfg|conf)$"@
}

/// What a string literal adds.
pub open spec fn literal_added(s: SideView, text: Chars, build: bool) -> SideView {
    let inner = unquoted(text);
    let a = if build && env_feature(inner).len() > 0 {
        SideView { build_feature_env: s.build_feature_env.push(env_feature(inner)), ..s }
    } else {
        s
    };
    let b = if build && holds(inner, "rustc-cfg="@) {
        feature_added(a, cfg_feature(inner))
    } else {
        a
    };
    if !inner.contains('/') && pattern_hit(config_names(), false, inner) {
        SideView { config_literals: b.config_literals.push(inner), ..b }
    } else {
        b
    }
}

/// The feature a `cargo:rustc-cfg=feature="x"` literal sets.
fn set_feature(inner: &str) -> (r: String)
    ensures
        r@ == cfg_feature(inner@),
{
    let v = chars(inner);
    let word = chars("feature");
    proof {
        reveal_strlit("feature");
    }
    match find(&v, &word, 0) {
        Some(i) => {
            let after = slice(&v, i + 7, v.len());
            let a = strip_start(trim_start(after.as_str()).as_str(), "=");
            let b = strip_start(trim_start(a.as_str()).as_str(), "\\\"");
            leading_run(b.as_str(), "_-")
        },
        None => {
            let none = String::new();
            assert(none@ =~= Seq::<char>::empty());
            none
        },
    }
}

impl FileSide {
    fn crate_ref(&mut self, name: &str, test: bool)
        ensures
            final(self).deep_view() == crate_added(old(self).deep_view(), name@, test),
    {
        if !name.is_empty() {
            put(&mut self.crate_refs, (name.to_owned(), test));
        }
    }

    fn field_read(&mut self, name: &str, test: bool)
        ensures
            final(self).deep_view() == read_added(old(self).deep_view(), name@, test),
    {
        put(&mut self.field_reads, (name.to_owned(), test));
    }

    fn feature_ref(&mut self, name: &str)
        ensures
            final(self).deep_view() == feature_added(old(self).deep_view(), name@),
    {
        if !name.is_empty() {
            put(&mut self.feature_refs, name.to_owned());
        }
    }

    fn consumed(&mut self, name: &str, format: &str)
        ensures
            final(self).deep_view() == consumed_added(old(self).deep_view(), name@, format@),
    {
        put(&mut self.consumed_types, (name.to_owned(), format.to_owned()));
    }

    fn string_literal(&mut self, text: &str, set: &Setting)
        requires
            set.ok(),
        ensures
            final(self).deep_view() == literal_added(old(self).deep_view(), text@, set.build),
    {
        let bare = strip_start(strip_start(text, "r#b").as_str(), "\"");
        let inner = strip_end(bare.as_str(), "\"#");
        if set.build {
            if let Some(rest) = strip_prefix(inner.as_str(), "CARGO_FEATURE_") {
                let name = leading_run(rest.as_str(), "_");
                if !name.as_str().is_empty() {
                    put(&mut self.build_feature_env, name);
                }
            }
            if contains(inner.as_str(), "rustc-cfg=") {
                self.feature_ref(set_feature(inner.as_str()).as_str());
            }
        }
        if !has_char(inner.as_str(), '/') && set.literals.hits(inner.as_str()) {
            put(&mut self.config_literals, inner);
        }
    }
}

// ---------- attributes and structs ----------

/// Children that are identifiers, by their texts.
pub open spec fn ident_texts(t: Nodes, kids: Seq<usize>) -> Seq<Chars>
    decreases kids.len(),
{
    if kids.len() == 0 {
        Seq::empty()
    } else if t[kids.last() as int].kind == "identifier"@ {
        ident_texts(t, kids.drop_last()).push(t[kids.last() as int].text)
    } else {
        ident_texts(t, kids.drop_last())
    }
}

/// The identifiers directly in a token tree.
pub fn idents_in(t: &SyntaxTree, i: usize) -> (out: Vec<String>)
    requires
        t.ok(),
        i < t@.len(),
    ensures
        out.deep_view() == ident_texts(t@, t@[i as int].children),
{
    let kids = &t.nodes[i].children;
    assert(t@[i as int] == t.nodes@[i as int].deep_view());
    assert(crate::tree::node_ok(t@, i as int));
    let mut out: Vec<String> = Vec::new();
    let mut k: usize = 0;
    assert(kids@.take(0) =~= Seq::<usize>::empty());
    assert(out.deep_view() =~= Seq::<Chars>::empty());
    while k < kids.len()
        invariant
            k <= kids.len(),
            t.ok(),
            i < t@.len(),
            kids@ == t@[i as int].children,
            crate::tree::node_ok(t@, i as int),
            out.deep_view() == ident_texts(t@, kids@.take(k as int)),
        decreases kids.len() - k,
    {
        assert(kids@.take(k + 1).drop_last() =~= kids@.take(k as int));
        assert(i < t@[i as int].children[k as int] < t@.len());
        if t.is(kids[k], "identifier") {
            put(&mut out, t.text(kids[k]).to_owned());
        }
        k = k + 1;
    }
    assert(kids@.take(kids@.len() as int) =~= kids@);
    out
}

/// The attribute of an attribute item.
pub open spec fn attr_in(t: Nodes, i: int) -> Option<usize> {
    match named_at(t, i, 0) {
        Some(a) => if is_kind(t, Some(a), "attribute"@) {
            Some(a)
        } else {
            None
        },
        None => None,
    }
}

/// The name of an attribute as written.
pub open spec fn attr_name(t: Nodes, a: int) -> Chars {
    match named_at(t, a, 0) {
        Some(n) => t[n as int].text,
        None => Seq::empty(),
    }
}

/// The arguments of the attribute called `name` that the item `i` holds.
pub open spec fn args_of(t: Nodes, i: int, name: Chars) -> Option<usize> {
    match attr_in(t, i) {
        Some(a) => if attr_name(t, a as int) == name {
            child_of(t, a as int, "arguments"@)
        } else {
            None
        },
        None => None,
    }
}

fn attribute(t: &SyntaxTree, i: usize) -> (r: Option<usize>)
    requires
        t.ok(),
        i < t@.len(),
    ensures
        r == attr_in(t@, i as int),
        r matches Some(a) ==> a < t@.len(),
{
    match t.named_child(i, 0) {
        Some(a) => if t.is(a, "attribute") {
            Some(a)
        } else {
            None
        },
        None => None,
    }
}

fn attribute_name(t: &SyntaxTree, a: usize) -> (r: String)
    requires
        t.ok(),
        a < t@.len(),
    ensures
        r@ == attr_name(t@, a as int),
{
    match t.named_child(a, 0) {
        Some(n) => t.text(n).to_owned(),
        None => String::new(),
    }
}

fn arguments(t: &SyntaxTree, i: usize, name: &str) -> (r: Option<usize>)
    requires
        t.ok(),
        i < t@.len(),
    ensures
        r == args_of(t@, i as int, name@),
        r matches Some(a) ==> a < t@.len(),
{
    match attribute(t, i) {
        Some(a) => if same(attribute_name(t, a).as_str(), name) {
            t.child(a, "arguments")
        } else {
            None
        },
        None => None,
    }
}

/// A text without the parentheses around it.
pub open spec fn bare_args(s: Chars) -> Chars {
    stripped_end(stripped_start(s, "()"@), "()"@)
}

fn strip_args(s: &str) -> (r: String)
    ensures
        r@ == bare_args(s@),
{
    strip_end(strip_start(s, "()").as_str(), "()")
}

/// `#[derive(…)]` names, `#[serde(…)]` arguments and the first line of the attributes of an item.
pub struct AttrsView {
    pub derives: Seq<Chars>,
    pub serde: Seq<Chars>,
    pub first: usize,
}

/// `#[derive(…)]` names, `#[serde(…)]` arguments and the first line of the attributes of an item.
pub struct Attrs {
    pub derives: Vec<String>,
    pub serde: Vec<String>,
    pub first: usize,
}

impl DeepView for Attrs {
    type V = AttrsView;

    open spec fn deep_view(&self) -> AttrsView {
        AttrsView { derives: self.derives.deep_view(), serde: self.serde.deep_view(), first: self.first }
    }
}

/// What one attribute item adds.
pub open spec fn attr_step(t: Nodes, a: int, acc: AttrsView) -> AttrsView {
    let seen = AttrsView { first: t[a].line, ..acc };
    match attr_in(t, a) {
        None => seen,
        Some(attr) => match child_of(t, attr as int, "arguments"@) {
            None => seen,
            Some(tt) => {
                let name = after_last(attr_name(t, attr as int), "::"@);
                if name == "derive"@ {
                    AttrsView { derives: seen.derives + ident_texts(t, t[tt as int].children), ..seen }
                } else if name == "serde"@ {
                    AttrsView { serde: seen.serde.push(bare_args(t[tt as int].text)), ..seen }
                } else {
                    seen
                }
            },
        },
    }
}

/// What the attribute items right above `i` say, the nearest first.
pub open spec fn attrs_from(t: Nodes, i: int, acc: AttrsView) -> AttrsView
    decreases i,
{
    match before_of(t, i, false) {
        Some(a) => if a < i && is_kind(t, Some(a), "attribute_item"@) {
            attrs_from(t, a as int, attr_step(t, a as int, acc))
        } else {
            acc
        },
        None => acc,
    }
}

/// `#[derive(…)]` names and `#[serde(…)]` arguments of the attribute items right above `i`, and the
/// line the first of them starts on.
pub open spec fn attrs_over(t: Nodes, i: int) -> AttrsView {
    attrs_from(t, i, AttrsView { derives: Seq::empty(), serde: Seq::empty(), first: t[i].line })
}

/// `#[derive(…)]` names and `#[serde(…)]` arguments of the attribute items right above `item`, and
/// the line the first of them starts on.
pub fn attrs_above(t: &SyntaxTree, item: usize) -> (r: Attrs)
    requires
        t.ok(),
        item < t@.len(),
    ensures
        r.deep_view() == attrs_over(t@, item as int),
{
    assert(t@[item as int] == t.nodes@[item as int].deep_view());
    let mut acc = Attrs { derives: Vec::new(), serde: Vec::new(), first: t.nodes[item].line };
    assert(acc.derives.deep_view() =~= Seq::<Chars>::empty());
    assert(acc.serde.deep_view() =~= Seq::<Chars>::empty());
    let mut i: usize = item;
    loop
        invariant
            t.ok(),
            i < t@.len(),
            attrs_over(t@, item as int) == attrs_from(t@, i as int, acc.deep_view()),
        decreases i,
    {
        match t.prev(i, false) {
            None => {
                return acc;
            },
            Some(a) => {
                if !t.is(a, "attribute_item") {
                    return acc;
                }
                assert(t@[a as int] == t.nodes@[a as int].deep_view());
                acc.first = t.nodes[a].line;
                if let Some(attr) = attribute(t, a) {
                    if let Some(tt) = t.child(attr, "arguments") {
                        let name = last_piece(attribute_name(t, attr).as_str(), "::");
                        if same(name.as_str(), "derive") {
                            let more = idents_in(t, tt);
                            crate::text::extend(&mut acc.derives, &more);
                        } else if same(name.as_str(), "serde") {
                            put(&mut acc.serde, strip_args(t.text(tt)));
                        }
                    }
                }
                i = a;
            },
        }
    }
}

/// One of the trimmed pieces of a comma list is `a` or `b`.
pub open spec fn comma_has(list: Seq<Chars>, a: Chars, b: Chars) -> bool {
    exists|k: int| 0 <= k < list.len() && (trimmed(#[trigger] list[k]) == a || trimmed(list[k]) == b)
}

fn has_arg(list: &Vec<String>, a: &str, b: &str) -> (r: bool)
    ensures
        r == comma_has(list.deep_view(), a@, b@),
{
    let ghost view = list.deep_view();
    let mut k: usize = 0;
    while k < list.len()
        invariant
            k <= list.len(),
            view == list.deep_view(),
            forall|j: int| 0 <= j < k ==> trimmed(#[trigger] view[j]) != a@ && trimmed(view[j]) != b@,
        decreases list.len() - k,
    {
        assert(view[k as int] == list@[k as int]@);
        let x = trim(list[k].as_str());
        if same(x.as_str(), a) || same(x.as_str(), b) {
            return true;
        }
        k = k + 1;
    }
    false
}

/// What the first piece that starts with `rename` renames to.
pub open spec fn renamed(list: Seq<Chars>, k: int) -> Chars
    decreases list.len() - k,
{
    if k < 0 || k >= list.len() {
        Seq::empty()
    } else {
        match without_prefix(trimmed(list[k]), "rename"@) {
            Some(r) => stripped_end(stripped_start(trimmed(stripped_start(trimmed(r), "="@)), "\""@), "\""@),
            None => renamed(list, k + 1),
        }
    }
}

fn rename_of(list: &Vec<String>) -> (r: String)
    ensures
        r@ == renamed(list.deep_view(), 0),
{
    let ghost view = list.deep_view();
    let mut k: usize = 0;
    while k < list.len()
        invariant
            k <= list.len(),
            view == list.deep_view(),
            renamed(view, 0) == renamed(view, k as int),
        decreases list.len() - k,
    {
        assert(view[k as int] == list@[k as int]@);
        if let Some(r) = strip_prefix(trim(list[k].as_str()).as_str(), "rename") {
            let bare = trim(strip_start(trim(r.as_str()).as_str(), "=").as_str());
            return strip_end(strip_start(bare.as_str(), "\"").as_str(), "\"");
        }
        k = k + 1;
    }
    String::new()
}

/// Wrappers whose last type argument a field links to.
pub open spec fn wraps(name: Chars) -> bool {
    ||| name == "Option"@
    ||| name == "Box"@
    ||| name == "Vec"@
    ||| name == "Arc"@
    ||| name == "Rc"@
    ||| name == "BTreeMap"@
    ||| name == "HashMap"@
    ||| name == "IndexMap"@
}

fn is_wrapper(name: &str) -> (r: bool)
    ensures
        r == wraps(name@),
{
    same(name, "Option") || same(name, "Box") || same(name, "Vec") || same(name, "Arc") || same(name, "Rc") || same(
        name,
        "BTreeMap",
    ) || same(name, "HashMap") || same(name, "IndexMap")
}

/// The last plain type name among the children.
pub open spec fn last_type(t: Nodes, kids: Seq<usize>) -> Option<Chars>
    decreases kids.len(),
{
    if kids.len() == 0 {
        None
    } else if t[kids.last() as int].kind == "type_identifier"@ {
        Some(t[kids.last() as int].text)
    } else {
        last_type(t, kids.drop_last())
    }
}

/// The struct name a field type links to, if any.
pub open spec fn linked_type(t: Nodes, i: int) -> Option<Chars> {
    if t[i].kind == "type_identifier"@ {
        Some(t[i].text)
    } else if t[i].kind == "generic_type"@ {
        let outer = match child_of(t, i, "type"@) {
            Some(n) => t[n as int].text,
            None => Seq::empty(),
        };
        if wraps(after_last(outer, "::"@)) {
            match child_of(t, i, "type_arguments"@) {
                Some(args) => last_type(t, named_kids(t, args as int)),
                None => None,
            }
        } else {
            None
        }
    } else {
        None
    }
}

/// The candidate-struct name a field type links to, if any.
pub fn type_link(t: &SyntaxTree, i: usize) -> (r: Option<String>)
    requires
        t.ok(),
        i < t@.len(),
    ensures
        r.deep_view() == linked_type(t@, i as int),
{
    if t.is(i, "type_identifier") {
        return Some(t.text(i).to_owned());
    }
    if !t.is(i, "generic_type") {
        return None;
    }
    let outer = match t.child(i, "type") {
        Some(n) => t.text(n).to_owned(),
        None => {
            let none = String::new();
            assert(none@ =~= Seq::<char>::empty());
            none
        },
    };
    if !is_wrapper(last_piece(outer.as_str(), "::").as_str()) {
        return None;
    }
    match t.child(i, "type_arguments") {
        None => None,
        Some(args) => {
            let kids = t.named_children(args);
            proof {
                crate::tree::named_kids_are_later(t@, args as int);
            }
            let ghost all = kids@;
            let mut k: usize = kids.len();
            assert(kids@.take(kids@.len() as int) =~= kids@);
            while k > 0
                invariant
                    k <= kids.len(),
                    t.ok(),
                    args < t@.len(),
                    kids@ == all,
                    all == named_kids(t@, args as int),
                    forall|j: int| 0 <= j < kids@.len() ==> args < #[trigger] kids@[j] < t@.len(),
                    linked_type(t@, i as int) == last_type(t@, all.take(k as int)),
                decreases k,
            {
                assert(all.take(k as int).drop_last() =~= all.take(k - 1));
                let c: usize = kids[k - 1];
                assert(args < kids@[k - 1] < t@.len());
                if t.is(c, "type_identifier") {
                    return Some(t.text(c).to_owned());
                }
                k = k - 1;
            }
            None
        },
    }
}

/// A field with the arguments of the attributes above it.
pub open spec fn field_of(t: Nodes, c: int, name: Chars, pending: Seq<Chars>) -> FieldView {
    let args = pieces(joined(pending, ","@), ","@);
    let key = renamed(args, 0);
    FieldView {
        name,
        key: if key.len() == 0 {
            name
        } else {
            key
        },
        line: t[c].line,
        ty: match child_of(t, c, "type"@) {
            Some(x) => linked_type(t, x as int),
            None => None,
        },
        skip: comma_has(args, "skip"@, "skip_deserializing"@),
    }
}

/// The fields of a body from its child `k` on, with the attributes that wait for a field.
pub open spec fn fields_from(t: Nodes, kids: Seq<usize>, k: int, acc: Seq<FieldView>, pending: Seq<Chars>) -> Seq<FieldView>
    decreases kids.len() - k,
{
    if k < 0 || k >= kids.len() {
        acc
    } else {
        let c = kids[k] as int;
        if t[c].kind == "attribute_item"@ {
            match args_of(t, c, "serde"@) {
                Some(tt) => fields_from(t, kids, k + 1, acc, pending.push(bare_args(t[tt as int].text))),
                None => fields_from(t, kids, k + 1, acc, pending),
            }
        } else if t[c].kind == "field_declaration"@ {
            match child_of(t, c, "name"@) {
                Some(n) => fields_from(
                    t,
                    kids,
                    k + 1,
                    acc.push(field_of(t, c, t[n as int].text, pending)),
                    Seq::empty(),
                ),
                None => fields_from(t, kids, k + 1, acc, pending),
            }
        } else {
            fields_from(t, kids, k + 1, acc, pending)
        }
    }
}

fn field_decl(t: &SyntaxTree, c: usize, name: &str, pending: &Vec<String>) -> (r: FieldDecl)
    requires
        t.ok(),
        c < t@.len(),
    ensures
        r.deep_view() == field_of(t@, c as int, name@, pending.deep_view()),
{
    let args = split(join(pending, ",").as_str(), ",");
    let found = rename_of(&args);
    let key = if found.as_str().is_empty() {
        name.to_owned()
    } else {
        found
    };
    let ty = match t.child(c, "type") {
        Some(x) => type_link(t, x),
        None => None,
    };
    assert(t@[c as int] == t.nodes@[c as int].deep_view());
    FieldDecl { name: name.to_owned(), key, line: t.nodes[c].line, ty, skip: has_arg(&args, "skip", "skip_deserializing") }
}

fn fields_in(t: &SyntaxTree, body: usize) -> (out: Vec<FieldDecl>)
    requires
        t.ok(),
        body < t@.len(),
    ensures
        out.deep_view() == fields_from(t@, named_kids(t@, body as int), 0, Seq::empty(), Seq::empty()),
{
    let kids = t.named_children(body);
    proof {
        crate::tree::named_kids_are_later(t@, body as int);
    }
    let mut out: Vec<FieldDecl> = Vec::new();
    let mut pending: Vec<String> = Vec::new();
    assert(out.deep_view() =~= Seq::<FieldView>::empty());
    assert(pending.deep_view() =~= Seq::<Chars>::empty());
    let mut k: usize = 0;
    while k < kids.len()
        invariant
            k <= kids.len(),
            t.ok(),
            body < t@.len(),
            kids@ == named_kids(t@, body as int),
            forall|j: int| 0 <= j < kids@.len() ==> body < #[trigger] kids@[j] < t@.len(),
            fields_from(t@, kids@, 0, Seq::empty(), Seq::empty()) == fields_from(
                t@,
                kids@,
                k as int,
                out.deep_view(),
                pending.deep_view(),
            ),
        decreases kids.len() - k,
    {
        let c: usize = kids[k];
        assert(body < kids@[k as int] < t@.len());
        if t.is(c, "attribute_item") {
            if let Some(tt) = arguments(t, c, "serde") {
                put(&mut pending, strip_args(t.text(tt)));
            }
        } else if t.is(c, "field_declaration") {
            if let Some(n) = t.child(c, "name") {
                let f = field_decl(t, c, t.text(n), &pending);
                put(&mut out, f);
                pending = Vec::new();
                assert(pending.deep_view() =~= Seq::<Chars>::empty());
            }
        }
        k = k + 1;
    }
    out
}

/// Some attribute text of `serde` has the argument `deny_unknown_fields`.
pub open spec fn denies(serde: Seq<Chars>) -> bool {
    exists|k: int|
        0 <= k < serde.len() && comma_has(pieces(#[trigger] serde[k], ","@), "deny_unknown_fields"@, "deny_unknown_fields"@)
}

fn deny_unknown(serde: &Vec<String>) -> (r: bool)
    ensures
        r == denies(serde.deep_view()),
{
    let ghost view = serde.deep_view();
    let mut k: usize = 0;
    while k < serde.len()
        invariant
            k <= serde.len(),
            view == serde.deep_view(),
            forall|j: int|
                0 <= j < k ==> !comma_has(
                    pieces(#[trigger] view[j], ","@),
                    "deny_unknown_fields"@,
                    "deny_unknown_fields"@,
                ),
        decreases serde.len() - k,
    {
        assert(view[k as int] == serde@[k as int]@);
        if has_arg(&split(serde[k].as_str(), ","), "deny_unknown_fields", "deny_unknown_fields") {
            return true;
        }
        k = k + 1;
    }
    false
}

/// The body of a struct with named fields.
pub open spec fn body_of(t: Nodes, i: int) -> Option<usize> {
    match child_of(t, i, "body"@) {
        Some(b) => if is_kind(t, Some(b), "field_declaration_list"@) {
            Some(b)
        } else {
            None
        },
        None => None,
    }
}

/// What a struct adds.
pub open spec fn struct_added(t: Nodes, i: int, s: SideView, test: bool) -> SideView {
    let a = attrs_over(t, i);
    match (child_of(t, i, "name"@), body_of(t, i)) {
        (Some(n), Some(b)) => if a.derives.contains("Deserialize"@) {
            SideView {
                structs: s.structs.push(
                    StructView {
                        name: t[n as int].text,
                        start_line: a.first,
                        end_line: t[i].end_line,
                        fields: fields_from(t, named_kids(t, b as int), 0, Seq::empty(), Seq::empty()),
                        deny_unknown_fields: denies(a.serde),
                        in_test: test,
                    },
                ),
                ..s
            }
        } else {
            s
        },
        _ => s,
    }
}

impl FileSide {
    fn struct_decl(&mut self, t: &SyntaxTree, i: usize, test: bool)
        requires
            t.ok(),
            i < t@.len(),
        ensures
            final(self).deep_view() == struct_added(t@, i as int, old(self).deep_view(), test),
    {
        let a = attrs_above(t, i);
        if !list_has(&a.derives, "Deserialize") {
            return;
        }
        if let Some(n) = t.child(i, "name") {
            if let Some(b) = t.child(i, "body") {
                if t.is(b, "field_declaration_list") {
                    let fields = fields_in(t, b);
                    assert(t@[i as int] == t.nodes@[i as int].deep_view());
                    put(
                        &mut self.structs,
                        StructDecl {
                            name: t.text(n).to_owned(),
                            start_line: a.first,
                            end_line: t.nodes[i].end_line,
                            fields,
                            deny_unknown_fields: deny_unknown(&a.serde),
                            in_test: test,
                        },
                    );
                }
            }
        }
    }
}

// ---------- imports ----------

/// Leftmost identifier of every leaf path of a `use` tree, in order.
pub open spec fn roots_of(t: Nodes, n: int) -> Seq<Chars>
    decreases t.len() - n, named_kids(t, n).len() + 1,
{
    if n < 0 || n >= t.len() {
        Seq::empty()
    } else if t[n].kind == "identifier"@ {
        seq![t[n].text]
    } else if t[n].kind == "scoped_identifier"@ || t[n].kind == "scoped_use_list"@ {
        let to = match child_of(t, n, "path"@) {
            Some(p) => Some(p),
            None => match child_of(t, n, "name"@) {
                Some(x) => Some(x),
                None => child_of(t, n, "list"@),
            },
        };
        match to {
            Some(x) => if n < x < t.len() {
                roots_of(t, x as int)
            } else {
                Seq::empty()
            },
            None => Seq::empty(),
        }
    } else if t[n].kind == "use_as_clause"@ {
        match child_of(t, n, "path"@) {
            Some(p) => if n < p < t.len() {
                roots_of(t, p as int)
            } else {
                Seq::empty()
            },
            None => Seq::empty(),
        }
    } else if t[n].kind == "use_list"@ || t[n].kind == "use_wildcard"@ {
        roots_from(t, n, 0)
    } else {
        Seq::empty()
    }
}

/// The roots of the named children of `n` from the `k`th on.
pub open spec fn roots_from(t: Nodes, n: int, k: int) -> Seq<Chars>
    decreases t.len() - n, named_kids(t, n).len() - k,
{
    if n < 0 || n >= t.len() || k < 0 || k >= named_kids(t, n).len() {
        Seq::empty()
    } else {
        let c = named_kids(t, n)[k] as int;
        (if n < c < t.len() {
            roots_of(t, c)
        } else {
            Seq::empty()
        }) + roots_from(t, n, k + 1)
    }
}

/// Adds the leftmost identifier of every leaf path of a `use` tree.
pub fn use_roots(t: &SyntaxTree, n: usize, out: &mut Vec<String>)
    requires
        t.ok(),
        n < t@.len(),
    ensures
        final(out).deep_view() == old(out).deep_view() + roots_of(t@, n as int),
    decreases t@.len() - n,
{
    let ghost was = out.deep_view();
    assert(was + Seq::<Chars>::empty() =~= was);
    if t.is(n, "identifier") {
        put(out, t.text(n).to_owned());
        assert(was + seq![t@[n as int].text] =~= was.push(t@[n as int].text));
    } else if t.is(n, "scoped_identifier") || t.is(n, "scoped_use_list") {
        let to = match t.child(n, "path") {
            Some(p) => Some(p),
            None => match t.child(n, "name") {
                Some(x) => Some(x),
                None => t.child(n, "list"),
            },
        };
        if let Some(x) = to {
            use_roots(t, x, out);
        }
    } else if t.is(n, "use_as_clause") {
        if let Some(p) = t.child(n, "path") {
            use_roots(t, p, out);
        }
    } else if t.is(n, "use_list") || t.is(n, "use_wildcard") {
        let kids = t.named_children(n);
        proof {
            crate::tree::named_kids_are_later(t@, n as int);
        }
        let ghost all = roots_from(t@, n as int, 0);
        let mut k: usize = 0;
        while k < kids.len()
            invariant
                k <= kids.len(),
                t.ok(),
                n < t@.len(),
                kids@ == named_kids(t@, n as int),
                forall|j: int| 0 <= j < kids@.len() ==> n < #[trigger] kids@[j] < t@.len(),
                was + all == out.deep_view() + roots_from(t@, n as int, k as int),
            decreases kids.len() - k,
        {
            let ghost done = out.deep_view();
            let c: usize = kids[k];
            assert(n < kids@[k as int] < t@.len());
            use_roots(t, c, out);
            proof {
                let rest = roots_from(t@, n as int, k + 1);
                assert(done + (roots_of(t@, c as int) + rest) =~= (done + roots_of(t@, c as int)) + rest);
            }
            k = k + 1;
        }
        assert(out.deep_view() + Seq::<Chars>::empty() =~= out.deep_view());
    }
}

// ---------- the walk ----------

/// Where a node stands.
#[derive(Clone, Copy)]
pub struct Ctx {
    /// Inside a comment, an import or a literal: nothing counts.
    pub off: bool,
    pub in_tt: bool,
    /// Inside an `impl` block (any).
    pub in_impl: bool,
    /// Inside `impl Default` / `impl Serialize` / `impl Deserialize`, or a method named like the
    /// write side: no field read counts.
    pub excluded: bool,
    /// This node is the `function:` of a `call_expression`: `.method()` is not a field read.
    pub call_fn: bool,
}

/// The context of a root.
pub open spec fn top_ctx() -> Ctx {
    Ctx { off: false, in_tt: false, in_impl: false, excluded: false, call_fn: false }
}

/// Node `i` stands in test code.
pub open spec fn tested(t: Nodes, i: int, set: SettingView) -> bool {
    set.test_file || within(set.regions, t[i].start)
}

/// What a `use` adds.
pub open spec fn roots_added(s: SideView, names: Seq<Chars>, test: bool) -> SideView
    decreases names.len(),
{
    if names.len() == 0 {
        s
    } else {
        crate_added(roots_added(s, names.drop_last(), test), names.last(), test)
    }
}

/// What a path adds: its leftmost segment where that is a crate.
pub open spec fn path_added(t: Nodes, i: int, s: SideView, test: bool) -> SideView {
    match child_of(t, i, "path"@) {
        Some(p) => if is_kind(t, Some(p), "identifier"@) {
            crate_added(s, t[p as int].text, test)
        } else {
            s
        },
        None => match child_of(t, i, "name"@) {
            Some(n) => crate_added(s, t[n as int].text, test),
            None => s,
        },
    }
}

/// A node kind that a `::` after it continues a path.
pub open spec fn path_piece(t: Nodes, i: Option<usize>) -> bool {
    ||| is_kind(t, i, "identifier"@)
    ||| is_kind(t, i, ">"@)
    ||| is_kind(t, i, "self"@)
    ||| is_kind(t, i, "crate"@)
    ||| is_kind(t, i, "super"@)
    ||| is_kind(t, i, "metavariable"@)
}

/// `a::b` starts a path; `::a::b` too (a leading `::` follows no path piece).
pub open spec fn leads(t: Nodes, i: int) -> bool {
    match before_of(t, i, true) {
        Some(p) => !is_kind(t, Some(p), "::"@) || !path_piece(t, before_of(t, p as int, true)),
        None => true,
    }
}

/// The text between quotes.
pub open spec fn between_quotes(s: Chars) -> Chars {
    stripped_end(stripped_start(s, "\""@), "\""@)
}

/// The feature `feature = "x"` names.
pub open spec fn named_feature(t: Nodes, i: int) -> Chars {
    match after_of(t, i, true) {
        Some(n) => if t[i].text == "feature"@ && is_kind(t, Some(n), "="@) {
            match after_of(t, n as int, true) {
                Some(lit) => if is_kind(t, Some(lit), "string_literal"@) {
                    between_quotes(t[lit as int].text)
                } else {
                    Seq::empty()
                },
                None => Seq::empty(),
            }
        } else {
            Seq::empty()
        },
        None => Seq::empty(),
    }
}

/// What an identifier inside a token tree adds. `x.name` inside a macro body is a field read;
/// `x.name(…)` is a call.
pub open spec fn token_added(t: Nodes, i: int, ctx: Ctx, s: SideView, test: bool) -> SideView {
    let next = after_of(t, i, true);
    let a = if is_kind(t, next, "::"@) && leads(t, i) {
        crate_added(s, t[i].text, test)
    } else {
        s
    };
    let b = if !ctx.excluded && is_kind(t, before_of(t, i, true), "."@) && !is_kind(t, next, "token_tree"@) {
        read_added(a, t[i].text, test)
    } else {
        a
    };
    feature_added(b, named_feature(t, i))
}

/// `#![allow(warnings)]` or `#![allow(unused)]`.
pub open spec fn silences(t: Nodes, i: int) -> bool {
    match args_of(t, i, "allow"@) {
        Some(tt) => {
            let names = ident_texts(t, t[tt as int].children);
            names.contains("warnings"@) || names.contains("unused"@)
        },
        None => false,
    }
}

/// The module of `#[cfg(test)] mod x;`.
pub open spec fn test_mod(t: Nodes, i: int) -> Option<Chars> {
    match (args_of(t, i, "cfg"@), after_of(t, i, false)) {
        (Some(tt), Some(item)) => if trimmed(
            stripped_end(stripped_start(trimmed(t[tt as int].text), "("@), ")"@),
        ) == "test"@ && is_kind(t, Some(item), "mod_item"@) && child_of(t, item as int, "body"@) is None {
            match child_of(t, item as int, "name"@) {
                Some(n) => Some(t[n as int].text),
                None => None,
            }
        } else {
            None
        },
        _ => None,
    }
}

/// `impl Default`, `impl Serialize` or `impl Deserialize`.
pub open spec fn plumbing(t: Nodes, i: int) -> bool {
    match child_of(t, i, "trait"@) {
        Some(tr) => {
            let name = after_last(head_of(t[tr as int].text, '<'), "::"@);
            name == "Default"@ || name == "Serialize"@ || name == "Deserialize"@
        },
        None => false,
    }
}

/// What an expression that may read a field adds.
pub open spec fn access_added(t: Nodes, i: int, ctx: Ctx, s: SideView, test: bool) -> SideView {
    if t[i].kind == "field_expression"@ && !ctx.call_fn {
        match child_of(t, i, "field"@) {
            Some(f) => if is_kind(t, Some(f), "field_identifier"@) {
                read_added(s, t[f as int].text, test)
            } else {
                s
            },
            None => s,
        }
    } else if t[i].kind == "field_pattern"@ {
        match child_of(t, i, "name"@) {
            Some(f) => read_added(s, t[f as int].text, test),
            None => s,
        }
    } else if t[i].kind == "index_expression"@ {
        match named_at(t, i, 1) {
            Some(lit) => if is_kind(t, Some(lit), "string_literal"@) {
                read_added(s, between_quotes(t[lit as int].text), test)
            } else {
                s
            },
            None => s,
        }
    } else {
        s
    }
}

/// What `let x: T = …` adds.
pub open spec fn let_added(t: Nodes, i: int, s: SideView) -> SideView {
    match (child_of(t, i, "type"@), child_of(t, i, "value"@)) {
        (Some(ty), Some(v)) => if is_kind(t, Some(ty), "type_identifier"@) {
            match format_of(t[v as int].text) {
                Some(f) => consumed_added(s, t[ty as int].text, f),
                None => s,
            }
        } else {
            s
        },
        _ => s,
    }
}

/// What the type arguments of a deserialise call add.
pub open spec fn types_added(t: Nodes, kids: Seq<usize>, format: Chars, s: SideView) -> SideView
    decreases kids.len(),
{
    if kids.len() == 0 {
        s
    } else {
        let rest = types_added(t, kids.drop_last(), format, s);
        let c = kids.last() as int;
        if t[c].kind == "type_identifier"@ {
            consumed_added(rest, t[c].text, format)
        } else {
            rest
        }
    }
}

/// What `f::<T>` adds.
pub open spec fn generic_added(t: Nodes, i: int, s: SideView) -> SideView {
    match (child_of(t, i, "function"@), child_of(t, i, "type_arguments"@)) {
        (Some(f), Some(args)) => match format_of(t[f as int].text) {
            Some(format) => types_added(t, named_kids(t, args as int), format, s),
            None => s,
        },
        _ => s,
    }
}

/// A method named like the write side.
pub open spec fn write_side(t: Nodes, i: int, set: SettingView) -> bool {
    match child_of(t, i, "name"@) {
        Some(f) => pattern_hit(set.writes, false, t[f as int].text),
        None => false,
    }
}

/// What node `i` adds, and the context its children start from.
pub open spec fn node_step(t: Nodes, i: int, ctx: Ctx, s: SideView, set: SettingView) -> (SideView, Ctx) {
    let kind = t[i].kind;
    let test = tested(t, i, set);
    let same_ctx = Ctx { call_fn: false, ..ctx };
    let dark = Ctx { off: true, ..same_ctx };
    if ctx.off || kind == "line_comment"@ || kind == "block_comment"@ {
        (s, dark)
    } else if kind == "use_declaration"@ {
        (match child_of(t, i, "argument"@) {
            Some(a) => roots_added(s, roots_of(t, a as int), test),
            None => s,
        }, dark)
    } else if kind == "extern_crate_declaration"@ {
        (match child_of(t, i, "name"@) {
            Some(n) => crate_added(s, t[n as int].text, test),
            None => s,
        }, dark)
    } else if kind == "scoped_identifier"@ || kind == "scoped_type_identifier"@ {
        (path_added(t, i, s, test), same_ctx)
    } else if kind == "identifier"@ && ctx.in_tt {
        (token_added(t, i, ctx, s, test), dark)
    } else if kind == "token_tree"@ {
        (s, Ctx { in_tt: true, ..same_ctx })
    } else if kind == "inner_attribute_item"@ {
        (if s.lint_silenced is None && silences(t, i) {
            SideView { lint_silenced: Some((t[i].line, t[i].text)), ..s }
        } else {
            s
        }, same_ctx)
    } else if kind == "attribute_item"@ {
        (match test_mod(t, i) {
            Some(m) => SideView { cfg_test_mods: s.cfg_test_mods.push(m), ..s },
            None => s,
        }, same_ctx)
    } else if kind == "struct_item"@ {
        (struct_added(t, i, s, test), same_ctx)
    } else if kind == "function_item"@ && ctx.in_impl {
        (s, Ctx { excluded: ctx.excluded || write_side(t, i, set), ..same_ctx })
    } else if kind == "impl_item"@ {
        (s, Ctx { in_impl: true, excluded: ctx.excluded || plumbing(t, i), ..same_ctx })
    } else if kind == "field_expression"@ || kind == "field_pattern"@ || kind == "index_expression"@ {
        (if ctx.excluded {
            s
        } else {
            access_added(t, i, ctx, s, test)
        }, same_ctx)
    } else if kind == "let_declaration"@ {
        (let_added(t, i, s), same_ctx)
    } else if kind == "generic_function"@ {
        (generic_added(t, i, s), same_ctx)
    } else if kind == "string_literal"@ || kind == "raw_string_literal"@ {
        (literal_added(s, t[i].text, set.build), dark)
    } else {
        (s, same_ctx)
    }
}

/// The context of node `i`, from what its parent hands down.
pub open spec fn ctx_at(t: Nodes, i: int, bases: Seq<Ctx>) -> Ctx {
    match t[i].parent {
        Some(p) => Ctx {
            call_fn: t[p as int].kind == "call_expression"@ && child_of(t, p as int, "function"@) == Some(i as usize),
            ..bases[p as int]
        },
        None => top_ctx(),
    }
}

/// What the nodes from `i` on, in pre-order, add to `s`; `bases` is what each earlier node hands to
/// its children.
pub open spec fn walked_from(t: Nodes, i: int, s: SideView, bases: Seq<Ctx>, set: SettingView) -> SideView
    decreases t.len() - i,
{
    if i < 0 || i >= t.len() {
        s
    } else {
        let (next, base) = node_step(t, i, ctx_at(t, i, bases), s, set);
        walked_from(t, i + 1, next, bases.push(base), set)
    }
}

fn starts_path(t: &SyntaxTree, i: usize) -> (r: bool)
    requires
        t.ok(),
        i < t@.len(),
    ensures
        r == leads(t@, i as int),
{
    match t.prev(i, true) {
        Some(p) => if t.is(p, "::") {
            let pp = t.prev(p, true);
            !(t.opt_is(pp, "identifier") || t.opt_is(pp, ">") || t.opt_is(pp, "self") || t.opt_is(pp, "crate") || t.opt_is(
                pp,
                "super",
            ) || t.opt_is(pp, "metavariable"))
        } else {
            true
        },
        None => true,
    }
}

fn quoted(s: &str) -> (r: String)
    ensures
        r@ == between_quotes(s@),
{
    strip_end(strip_start(s, "\"").as_str(), "\"")
}

fn feature_named(t: &SyntaxTree, i: usize) -> (r: String)
    requires
        t.ok(),
        i < t@.len(),
    ensures
        r@ == named_feature(t@, i as int),
{
    if same(t.text(i), "feature") {
        if let Some(n) = t.next(i, true) {
            if t.is(n, "=") {
                if let Some(lit) = t.next(n, true) {
                    if t.is(lit, "string_literal") {
                        return quoted(t.text(lit));
                    }
                }
            }
        }
    }
    let none = String::new();
    assert(none@ =~= Seq::<char>::empty());
    none
}

fn is_silencing(t: &SyntaxTree, i: usize) -> (r: bool)
    requires
        t.ok(),
        i < t@.len(),
    ensures
        r == silences(t@, i as int),
{
    match arguments(t, i, "allow") {
        Some(tt) => {
            let names = idents_in(t, tt);
            list_has(&names, "warnings") || list_has(&names, "unused")
        },
        None => false,
    }
}

fn mod_under_test(t: &SyntaxTree, i: usize) -> (r: Option<String>)
    requires
        t.ok(),
        i < t@.len(),
    ensures
        r.deep_view() == test_mod(t@, i as int),
{
    if let Some(tt) = arguments(t, i, "cfg") {
        if let Some(item) = t.next(i, false) {
            let bare = strip_end(strip_start(trim(t.text(tt)).as_str(), "(").as_str(), ")");
            if same(trim(bare.as_str()).as_str(), "test") && t.is(item, "mod_item") && t.child(item, "body").is_none() {
                if let Some(n) = t.child(item, "name") {
                    return Some(t.text(n).to_owned());
                }
            }
        }
    }
    None
}

fn is_plumbing(t: &SyntaxTree, i: usize) -> (r: bool)
    requires
        t.ok(),
        i < t@.len(),
    ensures
        r == plumbing(t@, i as int),
{
    match t.child(i, "trait") {
        Some(tr) => {
            let name = last_piece(head(t.text(tr), '<').as_str(), "::");
            same(name.as_str(), "Default") || same(name.as_str(), "Serialize") || same(name.as_str(), "Deserialize")
        },
        None => false,
    }
}

fn is_write_side(t: &SyntaxTree, i: usize, set: &Setting) -> (r: bool)
    requires
        t.ok(),
        i < t@.len(),
        set.ok(),
    ensures
        r == write_side(t@, i as int, set@),
{
    match t.child(i, "name") {
        Some(f) => set.writes.hits(t.text(f)),
        None => false,
    }
}

impl FileSide {
    fn import(&mut self, t: &SyntaxTree, arg: usize, test: bool)
        requires
            t.ok(),
            arg < t@.len(),
        ensures
            final(self).deep_view() == roots_added(old(self).deep_view(), roots_of(t@, arg as int), test),
    {
        let ghost was = self.deep_view();
        let mut names: Vec<String> = Vec::new();
        use_roots(t, arg, &mut names);
        let ghost view = names.deep_view();
        assert(view =~= roots_of(t@, arg as int));
        let mut k: usize = 0;
        assert(view.take(0) =~= Seq::<Chars>::empty());
        while k < names.len()
            invariant
                k <= names.len(),
                view == names.deep_view(),
                self.deep_view() == roots_added(was, view.take(k as int), test),
            decreases names.len() - k,
        {
            assert(view.take(k + 1).drop_last() =~= view.take(k as int));
            assert(view[k as int] == names@[k as int]@);
            self.crate_ref(names[k].as_str(), test);
            k = k + 1;
        }
        assert(view.take(view.len() as int) =~= view);
    }

    fn path_ref(&mut self, t: &SyntaxTree, i: usize, test: bool)
        requires
            t.ok(),
            i < t@.len(),
        ensures
            final(self).deep_view() == path_added(t@, i as int, old(self).deep_view(), test),
    {
        match t.child(i, "path") {
            Some(p) => if t.is(p, "identifier") {
                self.crate_ref(t.text(p), test);
            },
            None => if let Some(n) = t.child(i, "name") {
                self.crate_ref(t.text(n), test);
            },
        }
    }

    fn token(&mut self, t: &SyntaxTree, i: usize, ctx: Ctx, test: bool)
        requires
            t.ok(),
            i < t@.len(),
        ensures
            final(self).deep_view() == token_added(t@, i as int, ctx, old(self).deep_view(), test),
    {
        let next = t.next(i, true);
        let prev = t.prev(i, true);
        if t.opt_is(next, "::") && starts_path(t, i) {
            self.crate_ref(t.text(i), test);
        }
        if !ctx.excluded && t.opt_is(prev, ".") && !t.opt_is(next, "token_tree") {
            self.field_read(t.text(i), test);
        }
        self.feature_ref(feature_named(t, i).as_str());
    }

    fn access(&mut self, t: &SyntaxTree, i: usize, ctx: Ctx, test: bool)
        requires
            t.ok(),
            i < t@.len(),
        ensures
            final(self).deep_view() == access_added(t@, i as int, ctx, old(self).deep_view(), test),
    {
        if t.is(i, "field_expression") && !ctx.call_fn {
            if let Some(f) = t.child(i, "field") {
                if t.is(f, "field_identifier") {
                    self.field_read(t.text(f), test);
                }
            }
        } else if t.is(i, "field_pattern") {
            if let Some(f) = t.child(i, "name") {
                self.field_read(t.text(f), test);
            }
        } else if t.is(i, "index_expression") {
            if let Some(lit) = t.named_child(i, 1) {
                if t.is(lit, "string_literal") {
                    self.field_read(quoted(t.text(lit)).as_str(), test);
                }
            }
        }
    }

    fn let_binding(&mut self, t: &SyntaxTree, i: usize)
        requires
            t.ok(),
            i < t@.len(),
        ensures
            final(self).deep_view() == let_added(t@, i as int, old(self).deep_view()),
    {
        if let Some(ty) = t.child(i, "type") {
            if let Some(v) = t.child(i, "value") {
                if t.is(ty, "type_identifier") {
                    if let Some(f) = deserialise_format(t.text(v)) {
                        self.consumed(t.text(ty), f.as_str());
                    }
                }
            }
        }
    }

    fn generic_call(&mut self, t: &SyntaxTree, i: usize)
        requires
            t.ok(),
            i < t@.len(),
        ensures
            final(self).deep_view() == generic_added(t@, i as int, old(self).deep_view()),
    {
        let ghost was = self.deep_view();
        if let Some(f) = t.child(i, "function") {
            if let Some(args) = t.child(i, "type_arguments") {
                if let Some(format) = deserialise_format(t.text(f)) {
                    let kids = t.named_children(args);
                    proof {
                        crate::tree::named_kids_are_later(t@, args as int);
                    }
                    let mut k: usize = 0;
                    assert(kids@.take(0) =~= Seq::<usize>::empty());
                    while k < kids.len()
                        invariant
                            k <= kids.len(),
                            t.ok(),
                            args < t@.len(),
                            forall|j: int| 0 <= j < kids@.len() ==> args < #[trigger] kids@[j] < t@.len(),
                            self.deep_view() == types_added(t@, kids@.take(k as int), format@, was),
                        decreases kids.len() - k,
                    {
                        assert(kids@.take(k + 1).drop_last() =~= kids@.take(k as int));
                        assert(args < kids@[k as int] < t@.len());
                        if t.is(kids[k], "type_identifier") {
                            self.consumed(t.text(kids[k]), format.as_str());
                        }
                        k = k + 1;
                    }
                    assert(kids@.take(kids@.len() as int) =~= kids@);
                }
            }
        }
    }

    /// Note what node `i` adds, and give the context its children start from.
    #[verifier::spinoff_prover]
    #[verifier::rlimit(60)]
    fn node(&mut self, t: &SyntaxTree, i: usize, ctx: Ctx, set: &Setting) -> (base: Ctx)
        requires
            t.ok(),
            i < t@.len(),
            set.ok(),
        ensures
            (final(self).deep_view(), base) == node_step(t@, i as int, ctx, old(self).deep_view(), set@),
    {
        let mut base: Ctx = ctx;
        base.call_fn = false;
        if ctx.off || t.is(i, "line_comment") || t.is(i, "block_comment") {
            base.off = true;
            return base;
        }
        assert(t@[i as int] == t.nodes@[i as int].deep_view());
        let test = set.test_file || crate::regions::contains(set.regions, t.nodes[i].start);
        if t.is(i, "use_declaration") {
            if let Some(a) = t.child(i, "argument") {
                self.import(t, a, test);
            }
            base.off = true;
        } else if t.is(i, "extern_crate_declaration") {
            if let Some(n) = t.child(i, "name") {
                self.crate_ref(t.text(n), test);
            }
            base.off = true;
        } else if t.is(i, "scoped_identifier") || t.is(i, "scoped_type_identifier") {
            self.path_ref(t, i, test);
        } else if t.is(i, "identifier") && ctx.in_tt {
            self.token(t, i, ctx, test);
            base.off = true;
        } else if t.is(i, "token_tree") {
            base.in_tt = true;
        } else if t.is(i, "inner_attribute_item") {
            if self.lint_silenced.is_none() && is_silencing(t, i) {
                self.lint_silenced = Some((t.nodes[i].line, t.text(i).to_owned()));
            }
        } else if t.is(i, "attribute_item") {
            if let Some(m) = mod_under_test(t, i) {
                put(&mut self.cfg_test_mods, m);
            }
        } else if t.is(i, "struct_item") {
            self.struct_decl(t, i, test);
        } else if t.is(i, "function_item") && ctx.in_impl {
            base.excluded = ctx.excluded || is_write_side(t, i, set);
        } else if t.is(i, "impl_item") {
            base.in_impl = true;
            base.excluded = ctx.excluded || is_plumbing(t, i);
        } else if t.is(i, "field_expression") || t.is(i, "field_pattern") || t.is(i, "index_expression") {
            if !ctx.excluded {
                self.access(t, i, ctx, test);
            }
        } else if t.is(i, "let_declaration") {
            self.let_binding(t, i);
        } else if t.is(i, "generic_function") {
            self.generic_call(t, i);
        } else if t.is(i, "string_literal") || t.is(i, "raw_string_literal") {
            self.string_literal(t.text(i), set);
            base.off = true;
        }
        base
    }

    /// Walk one tree in pre-order, handing each node's context to its children.
    pub fn walk(&mut self, t: &SyntaxTree, set: &Setting)
        requires
            t.ok(),
            set.ok(),
        ensures
            final(self).deep_view() == walked_from(t@, 0, old(self).deep_view(), Seq::empty(), set@),
    {
        let ghost was = self.deep_view();
        let mut bases: Vec<Ctx> = Vec::new();
        let mut i: usize = 0;
        assert(bases@ =~= Seq::<Ctx>::empty());
        while i < t.len()
            invariant
                i <= t@.len(),
                t.ok(),
                set.ok(),
                bases.len() == i,
                walked_from(t@, 0, was, Seq::empty(), set@) == walked_from(t@, i as int, self.deep_view(), bases@, set@),
            decreases t@.len() - i,
        {
            let ctx: Ctx = match t.parent(i) {
                Some(p) => {
                    let mut c: Ctx = bases[p];
                    c.call_fn = t.is(p, "call_expression") && (match t.child(p, "function") {
                        Some(f) => f == i,
                        None => false,
                    });
                    c
                },
                None => Ctx { off: false, in_tt: false, in_impl: false, excluded: false, call_fn: false },
            };
            assert(t@[i as int].parent == t.nodes@[i as int].parent);
            assert(ctx == ctx_at(t@, i as int, bases@));
            let base = self.node(t, i, ctx, set);
            bases.push(base);
            i = i + 1;
        }
    }
}

/// Config-derived matchers, built once and shared by every file walk.
pub struct Walker {
    pub rust: bool,
    pub config_file: Pattern,
    pub config_struct: Pattern,
    pub config_literal: Pattern,
    pub serialize_fn: Pattern,
}

/// The file is a build script.
pub open spec fn build_script(path: Chars) -> bool {
    path == "build.rs"@ || ends(path, "/build.rs"@)
}

/// One file's side, from its tree.
pub open spec fn side_of(root: Option<Nodes>, f: SourceFile, regions: Seq<TestRegion>, cfg: Declared) -> SideView {
    let rust = f.lang == Language::Rust && cfg.languages.deep_view().contains("rust"@);
    let test_file = f.kind == FileKind::Test;
    let none = empty_side(f.path@, rust, test_file);
    match root {
        Some(t) => if rust {
            walked_from(
                t,
                0,
                none,
                Seq::empty(),
                SettingView { regions, test_file, build: build_script(f.path@), writes: cfg.serialize_fn_regex@ },
            )
        } else {
            none
        },
        None => none,
    }
}

impl Walker {
    /// The matchers are those of `cfg`.
    pub open spec fn of(&self, cfg: Declared) -> bool {
        &&& self.rust == cfg.languages.deep_view().contains("rust"@)
        &&& self.config_file@ == (cfg.config_file_regex@, false)
        &&& self.config_struct@ == (cfg.config_struct_regex@, false)
        &&& self.config_literal@ == (config_names(), false)
        &&& self.serialize_fn@ == (cfg.serialize_fn_regex@, false)
    }

    pub fn new(cfg: &Declared) -> (r: Walker)
        ensures
            r.of(*cfg),
    {
        Walker {
            rust: list_has(&cfg.languages, "rust"),
            config_file: Pattern::new(cfg.config_file_regex.as_str(), false),
            config_struct: Pattern::new(cfg.config_struct_regex.as_str(), false),
            config_literal: Pattern::new("^[\\w.-]+\\.(toml|ya?ml|json|json5|ini|cfg|conf)$", false),
            serialize_fn: Pattern::new(cfg.serialize_fn_regex.as_str(), false),
        }
    }

    /// One file's side on an already-parsed tree (`None` when the parse failed).
    pub fn file_side(&self, root: Option<&SyntaxTree>, file: &SourceFile, regions: &Vec<TestRegion>, cfg: &Declared) -> (r:
        FileSide)
        requires
            self.of(*cfg),
            root matches Some(t) ==> t.ok(),
        ensures
            r.deep_view() == side_of(
                match root {
                    Some(t) => Some(t@),
                    None => None,
                },
                *file,
                regions@,
                *cfg,
            ),
    {
        let rust = file.lang == Language::Rust && self.rust;
        let test_file = file.kind == FileKind::Test;
        let mut out = FileSide::new(file.path.as_str(), rust, test_file);
        if let Some(t) = root {
            if rust {
                let build = same(file.path.as_str(), "build.rs") || ends_with(file.path.as_str(), "/build.rs");
                let set = Setting { regions, test_file, build, writes: &self.serialize_fn, literals: &self.config_literal };
                out.walk(t, &set);
            }
        }
        out
    }

    /// Parse and collect one file on its own.
    pub fn parse_side(&self, file: &SourceFile, cfg: &Declared) -> (r: FileSide)
        requires
            self.of(*cfg),
        ensures
            parsed_side(r.deep_view(), *file, *cfg),
    {
        let tree = SyntaxTree::parse(file.lang, file.content.as_str());
        let ghost root = opt_nodes(tree);
        let regions: Vec<TestRegion> = match &tree {
            Some(t) => if file.kind != FileKind::Test {
                test_regions(t)
            } else {
                Vec::new()
            },
            None => Vec::new(),
        };
        assert(regions@ =~= regions_at(file.kind, root));
        let r = match &tree {
            Some(t) => self.file_side(Some(t), file, &regions, cfg),
            None => self.file_side(None, file, &regions, cfg),
        };
        assert(reads_as(file.lang, file.content@, root));
        r
    }
}

/// The test regions of a file that is not a test file as a whole.
pub open spec fn regions_at(kind: FileKind, root: Option<Nodes>) -> Seq<TestRegion> {
    match root {
        Some(t) => if kind != FileKind::Test {
            regions_from(t, 0)
        } else {
            Seq::empty()
        },
        None => Seq::empty(),
    }
}

/// `side` is what the pass collects of the file `f`.
pub open spec fn parsed_side(side: SideView, f: SourceFile, cfg: Declared) -> bool {
    exists|root: Option<Nodes>| #[trigger]
        reads_as(f.lang, f.content@, root) && side == side_of(root, f, regions_at(f.kind, root), cfg)
}

/// Which discovered files the pass reads.
pub open spec fn is_indexed(f: SourceFile) -> bool {
    f.kind == FileKind::Source || f.kind == FileKind::Test
}

/// Which discovered files the pass reads.
pub fn indexed(f: &SourceFile) -> (r: bool)
    ensures
        r == is_indexed(*f),
{
    f.kind == FileKind::Source || f.kind == FileKind::Test
}

/// One side for each file the pass reads, in order.
pub open spec fn sides_of(list: Seq<SideView>, files: Seq<SourceFile>, cfg: Declared) -> bool
    decreases files.len(),
{
    if files.len() == 0 {
        list.len() == 0
    } else if is_indexed(files.last()) {
        list.len() > 0 && parsed_side(list.last(), files.last(), cfg) && sides_of(
            list.drop_last(),
            files.drop_last(),
            cfg,
        )
    } else {
        sides_of(list, files.drop_last(), cfg)
    }
}

/// Collect every Source and Test file, one parse each.
pub fn index_all(files: &Vec<SourceFile>, cfg: &Declared) -> (out: Vec<FileSide>)
    ensures
        sides_of(out.deep_view(), files@, *cfg),
{
    let w = Walker::new(cfg);
    let mut out: Vec<FileSide> = Vec::new();
    let mut k: usize = 0;
    assert(files@.take(0) =~= Seq::<SourceFile>::empty());
    while k < files.len()
        invariant
            k <= files.len(),
            w.of(*cfg),
            sides_of(out.deep_view(), files@.take(k as int), *cfg),
        decreases files.len() - k,
    {
        assert(files@.take(k + 1).drop_last() =~= files@.take(k as int));
        if indexed(&files[k]) {
            let ghost was = out.deep_view();
            let side = w.parse_side(&files[k], cfg);
            put(&mut out, side);
            assert(out.deep_view().drop_last() =~= was);
        }
        k = k + 1;
    }
    assert(files@.take(files@.len() as int) =~= files@);
    out
}

/// Test files on trees that were parsed once: the whole file is test context, so there are no
/// regions.
pub fn index_tests(tests: &Vec<(&SourceFile, Option<SyntaxTree>)>, cfg: &Declared) -> (out: Vec<FileSide>)
    requires
        forall|k: int| 0 <= k < tests.len() ==> ((#[trigger] tests@[k]).1 matches Some(t) ==> t.ok()),
    ensures
        out.len() == tests.len(),
        forall|k: int|
            0 <= k < tests.len() ==> (#[trigger] out@[k]).deep_view() == side_of(
                opt_nodes(tests@[k].1),
                *tests@[k].0,
                Seq::empty(),
                *cfg,
            ),
{
    let w = Walker::new(cfg);
    let none: Vec<TestRegion> = Vec::new();
    assert(none@ =~= Seq::<TestRegion>::empty());
    let mut out: Vec<FileSide> = Vec::new();
    let mut k: usize = 0;
    while k < tests.len()
        invariant
            k <= tests.len(),
            w.of(*cfg),
            none@ == Seq::<TestRegion>::empty(),
            out.len() == k,
            forall|k: int| 0 <= k < tests.len() ==> ((#[trigger] tests@[k]).1 matches Some(t) ==> t.ok()),
            forall|j: int|
                0 <= j < k ==> (#[trigger] out@[j]).deep_view() == side_of(
                    opt_nodes(tests@[j].1),
                    *tests@[j].0,
                    Seq::empty(),
                    *cfg,
                ),
        decreases tests.len() - k,
    {
        assert(tests@[k as int].1 matches Some(t) ==> t.ok());
        let side = match &tests[k].1 {
            Some(t) => w.file_side(Some(t), tests[k].0, &none, cfg),
            None => w.file_side(None, tests[k].0, &none, cfg),
        };
        out.push(side);
        k = k + 1;
    }
    out
}

} // verus!
