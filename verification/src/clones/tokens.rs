//! The tokens of a file, as classes and hashes.

use vstd::prelude::*;
use vstd::std_specs::hash::DefaultHasherAdditionalSpecFns;
use std::collections::hash_map::DefaultHasher;
use std::hash::Hasher;

use crate::config::Tests;
use crate::discover::SourceFile;
use crate::lang::Language;
use crate::regions::{contains, inline_lines, lines_in, regions_from, test_regions, within, TestRegion};
use crate::text::{contains as has_text, holds, same, Chars};
use crate::tree::{after_from, built, built_node, child_of, opt_nodes, reads_as, Nodes, RawView, SyntaxTree};

verus! {

// ---------- hashes ----------

/// The hash of a text.
pub open spec fn text_hash(s: Chars) -> u64 {
    DefaultHasher::spec_finish(seq![vstd::utf8::encode_utf8(s)])
}

/// The hash of a run of hashes.
pub open spec fn run_hash(s: Seq<u64>) -> u64 {
    DefaultHasher::spec_finish(Seq::new(s.len(), |i: int| vstd::bytes::spec_u64_to_le_bytes(s[i])))
}

/// The hash of a text.
pub fn hash_str(s: &str) -> (r: u64)
    ensures
        r == text_hash(s@),
{
    let mut h = DefaultHasher::new();
    h.write(s.as_bytes());
    assert(h@ =~= seq![vstd::utf8::encode_utf8(s@)]);
    h.finish()
}

/// The bytes of each hash.
pub open spec fn bytes_of(bytes: Seq<Vec<u8>>, hashes: Seq<u64>) -> bool {
    bytes.len() == hashes.len() && forall|i: int|
        0 <= i < bytes.len() ==> (#[trigger] bytes[i])@ == vstd::bytes::spec_u64_to_le_bytes(hashes[i])
}

/// The bytes of each hash.
pub fn as_bytes(hashes: &Vec<u64>) -> (out: Vec<Vec<u8>>)
    ensures
        bytes_of(out@, hashes@),
{
    let mut out: Vec<Vec<u8>> = Vec::new();
    let mut i: usize = 0;
    while i < hashes.len()
        invariant
            i <= hashes.len(),
            out.len() == i,
            forall|j: int| 0 <= j < i ==> (#[trigger] out@[j])@ == vstd::bytes::spec_u64_to_le_bytes(hashes@[j]),
        decreases hashes.len() - i,
    {
        out.push(vstd::bytes::u64_to_le_bytes(hashes[i]));
        i = i + 1;
    }
    out
}

/// The hash of the `k` hashes from `at` on.
pub(crate) fn hash_run(bytes: &Vec<Vec<u8>>, at: usize, k: usize, Ghost(hashes): Ghost<Seq<u64>>) -> (r: u64)
    requires
        bytes_of(bytes@, hashes),
        at + k <= bytes.len(),
    ensures
        r == run_hash(hashes.subrange(at as int, at + k)),
{
    let ghost run = hashes.subrange(at as int, at + k);
    let ghost want = Seq::new(run.len(), |i: int| vstd::bytes::spec_u64_to_le_bytes(run[i]));
    let mut h = DefaultHasher::new();
    let mut i: usize = 0;
    assert(h@ =~= want.take(0));
    while i < k
        invariant
            i <= k,
            at + k <= bytes.len(),
            bytes_of(bytes@, hashes),
            run == hashes.subrange(at as int, at + k),
            want == Seq::new(run.len(), |i: int| vstd::bytes::spec_u64_to_le_bytes(run[i])),
            h@ == want.take(i as int),
        decreases k - i,
    {
        assert(bytes@[at + i]@ == vstd::bytes::spec_u64_to_le_bytes(hashes[at + i]));
        h.write(bytes[at + i].as_slice());
        assert(want.take(i + 1) =~= want.take(i as int).push(want[i as int]));
        i = i + 1;
    }
    assert(want.take(want.len() as int) =~= want);
    h.finish()
}

// ---------- classes ----------

/// Kinds of string literals.
pub open spec fn string_kind(k: Chars) -> bool {
    ||| k == "string"@
    ||| k == "template_string"@
    ||| k == "string_literal"@
    ||| k == "raw_string_literal"@
    ||| k == "concatenated_string"@
    ||| k == "jsx_text"@
    ||| k == "char_literal"@
}

/// Kinds of numbers and other constants.
pub open spec fn number_kind(k: Chars) -> bool {
    ||| k == "integer"@
    ||| k == "float"@
    ||| k == "number"@
    ||| k == "integer_literal"@
    ||| k == "float_literal"@
    ||| k == "true"@
    ||| k == "false"@
    ||| k == "none"@
    ||| k == "null"@
    ||| k == "undefined"@
}

/// Is it the kind of a string literal?
pub fn is_string_kind(k: &str) -> (r: bool)
    ensures
        r == string_kind(k@),
{
    same(k, "string") || same(k, "template_string") || same(k, "string_literal") || same(k, "raw_string_literal") || same(
        k,
        "concatenated_string",
    ) || same(k, "jsx_text") || same(k, "char_literal")
}

/// Is it the kind of a number or another constant?
pub fn is_number_kind(k: &str) -> (r: bool)
    ensures
        r == number_kind(k@),
{
    same(k, "integer") || same(k, "float") || same(k, "number") || same(k, "integer_literal") || same(k, "float_literal")
        || same(k, "true") || same(k, "false") || same(k, "none") || same(k, "null") || same(k, "undefined")
}

/// The class of a node that is one token: strings, numbers and identifiers are each one class, other
/// leaves their own.
pub open spec fn class_of(t: Nodes, i: int) -> Option<Chars> {
    let k = t[i].kind;
    if string_kind(k) {
        Some("STR"@)
    } else if number_kind(k) {
        Some("NUM"@)
    } else if t[i].children.len() == 0 {
        Some(if holds(k, "identifier"@) {
            "ID"@
        } else {
            k
        })
    } else {
        None
    }
}

/// A comment.
pub open spec fn comment_kind(k: Chars) -> bool {
    k == "comment"@ || k == "line_comment"@ || k == "block_comment"@
}

/// A static import or re-export.
pub open spec fn import_at(t: Nodes, i: int) -> bool {
    let k = t[i].kind;
    ||| k == "use_declaration"@
    ||| k == "extern_crate_declaration"@
    ||| k == "import_statement"@
    ||| k == "import_from_statement"@
    ||| k == "future_import_statement"@
    ||| k == "export_statement"@ && child_of(t, i, "source"@) is Some
}

/// A node that holds no token: a comment, an import, or part of a test.
pub open spec fn mute(t: Nodes, i: int, regions: Seq<TestRegion>) -> bool {
    comment_kind(t[i].kind) || import_at(t, i) || within(regions, t[i].start)
}

/// The token of a node: the hash of its class, its line and its bytes.
#[derive(Clone, Copy)]
pub struct Token {
    pub hash: u64,
    pub line: usize,
    pub start: usize,
    pub end: usize,
}

/// The tokens from node `i` on, in order.
pub open spec fn tokens_from(t: Nodes, i: int, regions: Seq<TestRegion>) -> Seq<Token>
    decreases t.len() - i,
{
    if i < 0 || i >= t.len() {
        Seq::empty()
    } else {
        let after = t[i].after as int;
        if mute(t, i, regions) {
            if i < after <= t.len() {
                tokens_from(t, after, regions)
            } else {
                Seq::empty()
            }
        } else {
            match class_of(t, i) {
                Some(c) => seq![Token { hash: text_hash(c), line: t[i].line, start: t[i].start, end: t[i].end }] + (if i < after
                    <= t.len() {
                    tokens_from(t, after, regions)
                } else {
                    Seq::empty()
                }),
                None => tokens_from(t, i + 1, regions),
            }
        }
    }
}

/// The tokens of a file.
pub struct Tokens {
    pub list: Vec<Token>,
    pub hashes: Vec<u64>,
    /// Lines inside inline test regions, which emitted no tokens.
    pub inline_test_lines: usize,
    /// The tree, kept for the container walks.
    pub tree: Option<SyntaxTree>,
}

/// [`Tokens`] by their contents.
pub struct TokensView {
    pub list: Seq<Token>,
    pub inline_test_lines: usize,
    pub tree: Option<Nodes>,
}

/// The hashes of tokens.
pub open spec fn hashes_of(list: Seq<Token>) -> Seq<u64> {
    Seq::new(list.len(), |i: int| list[i].hash)
}

impl View for Tokens {
    type V = TokensView;

    open spec fn view(&self) -> TokensView {
        TokensView { list: self.list@, inline_test_lines: self.inline_test_lines, tree: opt_nodes(self.tree) }
    }
}

impl Tokens {
    /// One hash for each token, and a tree in order.
    pub open spec fn ok(&self) -> bool {
        &&& self.hashes@ == hashes_of(self.list@)
        &&& self.tree matches Some(t) ==> t.ok()
    }
}

/// The test regions of a file that emit no tokens.
pub open spec fn muted(lang: Language, t: Nodes, tests: Tests) -> Seq<TestRegion> {
    if tests.inline_modules && lang == Language::Rust {
        regions_from(t, 0)
    } else {
        Seq::empty()
    }
}

/// The tokens of a tree.
pub open spec fn tokens_in(root: Option<Nodes>, lang: Language, tests: Tests) -> TokensView {
    match root {
        Some(t) => {
            let regions = muted(lang, t, tests);
            TokensView {
                list: tokens_from(t, 0, regions),
                inline_test_lines: lines_in(regions),
                tree: root,
            }
        },
        None => TokensView { list: Seq::empty(), inline_test_lines: 0, tree: None },
    }
}

/// `v` are the tokens of the file `f`.
pub open spec fn tokens_of(v: TokensView, f: SourceFile, tests: Tests) -> bool {
    exists|root: Option<Nodes>| #[trigger] reads_as(f.lang, f.content@, root) && v == tokens_in(root, f.lang, tests)
}

fn is_import(t: &SyntaxTree, i: usize) -> (r: bool)
    requires
        t.ok(),
        i < t@.len(),
    ensures
        r == import_at(t@, i as int),
{
    t.is(i, "use_declaration") || t.is(i, "extern_crate_declaration") || t.is(i, "import_statement") || t.is(
        i,
        "import_from_statement",
    ) || t.is(i, "future_import_statement") || (t.is(i, "export_statement") && t.child(i, "source").is_some())
}

fn token_class(t: &SyntaxTree, i: usize) -> (r: Option<String>)
    requires
        i < t@.len(),
    ensures
        r.deep_view() == class_of(t@, i as int),
{
    let k = t.kind(i);
    assert(t@[i as int] == t.nodes@[i as int].deep_view());
    if is_string_kind(k) {
        Some("STR".to_owned())
    } else if is_number_kind(k) {
        Some("NUM".to_owned())
    } else if t.nodes[i].children.len() == 0 {
        if has_text(k, "identifier") {
            Some("ID".to_owned())
        } else {
            Some(k.to_owned())
        }
    } else {
        None
    }
}

fn token_list(t: &SyntaxTree, regions: &Vec<TestRegion>) -> (out: Vec<Token>)
    requires
        t.ok(),
    ensures
        out@ == tokens_from(t@, 0, regions@),
{
    let mut out: Vec<Token> = Vec::new();
    let mut i: usize = 0;
    assert(out@ + tokens_from(t@, 0, regions@) =~= tokens_from(t@, 0, regions@));
    while i < t.len()
        invariant
            i <= t@.len(),
            t.ok(),
            tokens_from(t@, 0, regions@) == out@ + tokens_from(t@, i as int, regions@),
        decreases t@.len() - i,
    {
        assert(crate::tree::node_ok(t@, i as int));
        assert(t@[i as int] == t.nodes@[i as int].deep_view());
        let n = &t.nodes[i];
        if t.is(i, "comment") || t.is(i, "line_comment") || t.is(i, "block_comment") || is_import(t, i) || contains(
            regions,
            n.start,
        ) {
            i = n.after;
        } else {
            match token_class(t, i) {
                Some(c) => {
                    let ghost was = out@;
                    let x = Token { hash: hash_str(c.as_str()), line: n.line, start: n.start, end: n.end };
                    out.push(x);
                    proof {
                        let rest = tokens_from(t@, t@[i as int].after as int, regions@);
                        assert(was + (seq![x] + rest) =~= out@ + rest);
                    }
                    i = n.after;
                },
                None => {
                    i = i + 1;
                },
            }
        }
    }
    assert(out@ + Seq::<Token>::empty() =~= out@);
    out
}

fn hash_list(list: &Vec<Token>) -> (out: Vec<u64>)
    ensures
        out@ == hashes_of(list@),
{
    let mut out: Vec<u64> = Vec::new();
    let mut i: usize = 0;
    while i < list.len()
        invariant
            i <= list.len(),
            out.len() == i,
            forall|j: int| 0 <= j < i ==> #[trigger] out@[j] == list@[j].hash,
        decreases list.len() - i,
    {
        out.push(list[i].hash);
        i = i + 1;
    }
    assert(out@ =~= hashes_of(list@));
    out
}

/// The tokens of a file: leaves collapsed to classes, comments, imports and inline tests left out.
pub fn tokenize(f: &SourceFile, tests: &Tests) -> (r: Tokens)
    ensures
        r.ok(),
        tokens_of(r@, *f, *tests),
{
    let tree = SyntaxTree::parse(f.lang, f.content.as_str());
    let ghost root = opt_nodes(tree);
    match tree {
        None => {
            let r = Tokens { list: Vec::new(), hashes: Vec::new(), inline_test_lines: 0, tree: None };
            assert(r.list@ =~= Seq::<Token>::empty());
            assert(r.hashes@ =~= hashes_of(r.list@));
            assert(reads_as(f.lang, f.content@, root));
            r
        },
        Some(t) => {
            let regions = if tests.inline_modules && f.lang == Language::Rust {
                test_regions(&t)
            } else {
                Vec::new()
            };
            assert(regions@ =~= muted(f.lang, t@, *tests));
            let list = token_list(&t, &regions);
            let hashes = hash_list(&list);
            let r = Tokens { list, hashes, inline_test_lines: inline_lines(&regions), tree: Some(t) };
            assert(reads_as(f.lang, f.content@, root));
            assert(r@ == tokens_in(root, f.lang, *tests));
            r
        },
    }
}

// ---------- laws ----------

/// Node `p`, or one it stands in, holds no token.
pub open spec fn silenced(t: Nodes, p: int, regions: Seq<TestRegion>) -> bool {
    exists|q: int| 0 <= q <= p && p < (#[trigger] t[q]).after && mute(t, q, regions)
}

/// A token is that of node `p`.
pub open spec fn token_at(t: Nodes, p: int, k: Token) -> bool {
    &&& 0 <= p < t.len()
    &&& class_of(t, p) is Some
    &&& k == (Token { hash: text_hash(class_of(t, p)->0), line: t[p].line, start: t[p].start, end: t[p].end })
}

/// A token is that of a node that may hold one.
pub open spec fn heard(t: Nodes, regions: Seq<TestRegion>, k: Token) -> bool {
    exists|p: int| #[trigger] token_at(t, p, k) && !silenced(t, p, regions)
}

proof fn subtrees_nest(raw: Seq<RawView>, q: int, i: int, j: int)
    requires
        0 <= q < i < j <= after_from(raw, q, q + 1),
        i < raw.len(),
        raw[i].depth > raw[q].depth,
    ensures
        after_from(raw, i, j) <= after_from(raw, q, q + 1),
    decreases raw.len() - j,
{
    ends_at_no_deeper(raw, q, q + 1);
    let e = after_from(raw, q, q + 1);
    if j < raw.len() && raw[j].depth > raw[i].depth {
        assert(j < e);
        subtrees_nest(raw, q, i, j + 1);
    }
}

pub(crate) proof fn ends_at_no_deeper(raw: Seq<RawView>, q: int, j: int)
    requires
        0 <= j <= raw.len(),
    ensures
        j <= after_from(raw, q, j) <= raw.len(),
        after_from(raw, q, j) < raw.len() ==> raw[after_from(raw, q, j)].depth <= raw[q].depth,
        forall|x: int| j <= x < after_from(raw, q, j) ==> (#[trigger] raw[x]).depth > raw[q].depth,
    decreases raw.len() - j,
{
    if j < raw.len() && raw[j].depth > raw[q].depth {
        ends_at_no_deeper(raw, q, j + 1);
    }
}

pub(crate) proof fn nested(raw: Seq<RawView>, t: Nodes, q: int, i: int)
    requires
        built(raw, t),
        0 <= q < i < t[q].after,
        q < t.len(),
    ensures
        i < t.len(),
        t[i].after <= t[q].after,
{
    assert(built_node(raw, t[q], q));
    ends_at_no_deeper(raw, q, q + 1);
    assert(raw[i].depth > raw[q].depth);
    assert(built_node(raw, t[i], i));
    subtrees_nest(raw, q, i, i + 1);
}

pub(crate) proof fn tokens_are_heard(raw: Seq<RawView>, t: Nodes, i: int, regions: Seq<TestRegion>)
    requires
        built(raw, t),
        0 <= i <= t.len(),
        forall|q: int| 0 <= q < i && mute(t, q, regions) ==> (#[trigger] t[q]).after <= i,
    ensures
        forall|k: int| 0 <= k < tokens_from(t, i, regions).len() ==> heard(t, regions, #[trigger] tokens_from(t, i, regions)[k]),
    decreases t.len() - i,
{
    if i < t.len() {
        assert(built_node(raw, t[i], i));
        ends_at_no_deeper(raw, i, i + 1);
        let after = t[i].after as int;
        let out = tokens_from(t, i, regions);
        assert forall|q: int| 0 <= q < after && mute(t, q, regions) && i <= q implies (#[trigger] t[q]).after <= after by {
            if q > i {
                nested(raw, t, i, q);
            }
        }
        if mute(t, i, regions) {
            tokens_are_heard(raw, t, after, regions);
            assert(out == tokens_from(t, after, regions));
        } else {
            match class_of(t, i) {
                Some(c) => {
                    let rest = tokens_from(t, after, regions);
                    tokens_are_heard(raw, t, after, regions);
                    assert(!silenced(t, i, regions));
                    assert(token_at(t, i, out[0]));
                    assert(heard(t, regions, out[0]));
                    assert forall|k: int| 0 <= k < out.len() implies heard(t, regions, #[trigger] out[k]) by {
                        if k > 0 {
                            assert(out[k] == rest[k - 1]);
                        }
                    }
                },
                None => {
                    tokens_are_heard(raw, t, i + 1, regions);
                    assert(out == tokens_from(t, i + 1, regions));
                },
            }
        }
    }
}

/// Imports, comments and inline tests emit no tokens: every token is that of a node which neither is
/// one of them nor stands in one.
pub proof fn imports_and_tests_emit_no_tokens(raw: Seq<RawView>, t: Nodes, regions: Seq<TestRegion>, k: int)
    requires
        built(raw, t),
        0 <= k < tokens_from(t, 0, regions).len(),
    ensures
        heard(t, regions, tokens_from(t, 0, regions)[k]),
{
    tokens_are_heard(raw, t, 0, regions);
}

/// Two trees have one shape: the same kinds in the same places, whatever the texts.
pub open spec fn same_shape(t: Nodes, r: Seq<TestRegion>, u: Nodes, s: Seq<TestRegion>) -> bool {
    &&& t.len() == u.len()
    &&& forall|i: int|
        0 <= i < t.len() ==> {
            &&& (#[trigger] t[i]).kind == u[i].kind
            &&& t[i].children.len() == u[i].children.len()
            &&& t[i].after == u[i].after
            &&& mute(t, i, r) == mute(u, i, s)
        }
}

/// Renamed copies still match: trees of one shape have the same hashes.
pub proof fn renaming_keeps_the_hashes(t: Nodes, r: Seq<TestRegion>, u: Nodes, s: Seq<TestRegion>, i: int)
    requires
        same_shape(t, r, u, s),
    ensures
        hashes_of(tokens_from(t, i, r)) == hashes_of(tokens_from(u, i, s)),
    decreases t.len() - i,
{
    let x = hashes_of(tokens_from(t, i, r));
    let y = hashes_of(tokens_from(u, i, s));
    if 0 <= i < t.len() {
        let after = t[i].after as int;
        assert(t[i].kind == u[i].kind && mute(t, i, r) == mute(u, i, s));
        if i < after <= t.len() {
            renaming_keeps_the_hashes(t, r, u, s, after);
        }
        renaming_keeps_the_hashes(t, r, u, s, i + 1);
        if !mute(t, i, r) {
            if let Some(c) = class_of(t, i) {
                let head = seq![text_hash(c)];
                let a = if i < after <= t.len() {
                    tokens_from(t, after, r)
                } else {
                    Seq::empty()
                };
                let b = if i < after <= u.len() {
                    tokens_from(u, after, s)
                } else {
                    Seq::empty()
                };
                assert(x =~= head + hashes_of(a));
                assert(y =~= head + hashes_of(b));
                assert(hashes_of(a) =~= hashes_of(b));
            }
        } else {
            assert(x =~= y);
        }
    } else {
        assert(x =~= y);
    }
}

} // verus!
