//! TOML and JSON documents as trees.
//!
//! A document is a [`SyntaxTree`]: the kind of a node is `table`, `array`, `string`, `boolean` or
//! `other`, its field is the key it stands under, its text is the value of a string or a boolean.

use vstd::prelude::*;

use serde_json::Value as JsonValue;
use toml::Value as TomlValue;

use crate::text::{put, same, Chars};
use crate::tree::{built, child_of, is_kind, Nodes, RawNode, RawView, SyntaxTree};

verus! {

/// One value of a document: its depth, its key, its kind and its text.
pub type Bit = (usize, String, String, String);

/// A [`Bit`] by its contents.
pub type BitView = (usize, Chars, Chars, Chars);

/// The node of a value.
pub open spec fn node_of(b: BitView) -> RawView {
    RawView { kind: b.2, field: b.1, named: true, start: 0, end: 0, row: 0, end_row: 0, depth: b.0, text: b.3 }
}

/// The nodes of the values of a document.
pub open spec fn nodes_of(list: Seq<BitView>) -> Seq<RawView> {
    Seq::new(list.len(), |i: int| node_of(list[i]))
}

fn as_nodes(list: Vec<Bit>) -> (out: Vec<RawNode>)
    ensures
        out.deep_view() == nodes_of(list.deep_view()),
{
    let ghost view = list.deep_view();
    let mut out: Vec<RawNode> = Vec::new();
    let mut k: usize = 0;
    while k < list.len()
        invariant
            k <= list.len(),
            out.len() == k,
            view == list.deep_view(),
            forall|j: int| 0 <= j < k ==> (#[trigger] out@[j]).deep_view() == node_of(view[j]),
        decreases list.len() - k,
    {
        let b = &list[k];
        assert(view[k as int] == b.deep_view());
        out.push(
            RawNode {
                kind: b.2.as_str().to_owned(),
                field: b.1.as_str().to_owned(),
                named: true,
                start: 0,
                end: 0,
                row: 0,
                end_row: 0,
                depth: b.0,
                text: b.3.as_str().to_owned(),
            },
        );
        k = k + 1;
    }
    assert(out.deep_view() =~= nodes_of(view));
    out
}

// ---------- one level of a value ----------

/// A value, one level deep: its text, its truth, or the values it holds.
pub enum Part<'a, V> {
    Text(String),
    Flag(bool),
    List(Vec<&'a V>),
    Table(Vec<(String, &'a V)>),
    Other,
}

/// A [`Part`] by its contents.
pub enum PartView<V> {
    Text(Chars),
    Flag(bool),
    List(Seq<V>),
    Table(Seq<(Chars, V)>),
    Other,
}

impl<'a, V> View for Part<'a, V> {
    type V = PartView<V>;

    open spec fn view(&self) -> PartView<V> {
        match self {
            Part::Text(s) => PartView::Text(s@),
            Part::Flag(b) => PartView::Flag(*b),
            Part::List(list) => PartView::List(Seq::new(list@.len(), |k: int| *list@[k])),
            Part::Table(list) => PartView::Table(Seq::new(list@.len(), |k: int| (list@[k].0@, *list@[k].1))),
            Part::Other => PartView::Other,
        }
    }
}

/// The values that a value holds, each under its key; those of a list have none.
pub open spec fn held<V>(p: PartView<V>) -> Seq<(Chars, V)> {
    match p {
        PartView::List(list) => Seq::new(list.len(), |k: int| (Seq::empty(), list[k])),
        PartView::Table(list) => list,
        _ => Seq::empty(),
    }
}

/// The kind of a value.
pub open spec fn kind_of<V>(p: PartView<V>) -> Chars {
    match p {
        PartView::Text(_) => "string"@,
        PartView::Flag(_) => "boolean"@,
        PartView::List(_) => "array"@,
        PartView::Table(_) => "table"@,
        PartView::Other => "other"@,
    }
}

/// The text of a string or a boolean.
pub open spec fn text_of<V>(p: PartView<V>) -> Chars {
    match p {
        PartView::Text(s) => s,
        PartView::Flag(b) => if b {
            "true"@
        } else {
            "false"@
        },
        _ => Seq::empty(),
    }
}

/// The node of a value, without what it holds.
pub open spec fn bit_of<V>(p: PartView<V>, key: Chars, depth: usize) -> BitView {
    (depth, key, kind_of(p), text_of(p))
}

fn make_bit<V>(p: &Part<'_, V>, key: &str, depth: usize) -> (r: Bit)
    ensures
        r.deep_view() == bit_of(p@, key@, depth),
{
    let (kind, text) = match p {
        Part::Text(s) => ("string", s.as_str()),
        Part::Flag(b) => (
            "boolean",
            if *b {
                "true"
            } else {
                "false"
            },
        ),
        Part::List(_) => ("array", ""),
        Part::Table(_) => ("table", ""),
        Part::Other => ("other", ""),
    };
    proof {
        reveal_strlit("");
        assert(""@ =~= Seq::<char>::empty());
    }
    (depth, key.to_owned(), kind.to_owned(), text.to_owned())
}

// ---------- TOML ----------

/// `toml::Value`: a document or a part of one, of which nothing is known but what is read from it.
#[verifier::external_type_specification]
#[verifier::external_body]
pub struct ExTomlValue(toml::Value);

/// What a TOML value is, one level deep.
pub uninterp spec fn toml_part(v: toml::Value) -> PartView<toml::Value>;

/// How deep a TOML value nests.
pub uninterp spec fn toml_height(v: toml::Value) -> usize;

/// The document of a TOML text.
pub uninterp spec fn toml_doc(text: Chars) -> Option<toml::Value>;

/// `toml::from_str`: the document is a function of the text, and there is none where the text is
/// not TOML.
#[verifier::external_body]
pub(crate) fn parse_toml(text: &str) -> (r: Option<toml::Value>)
    ensures
        r == toml_doc(text@),
{
    toml::from_str::<toml::Table>(text).ok().map(toml::Value::Table)
}

/// `toml::Value`, one level deep: its text, its truth, or the values it holds, in order, each of which nests
/// less deep than it does.
#[verifier::external_body]
pub(crate) fn open_toml(v: &toml::Value) -> (r: Part<'_, toml::Value>)
    ensures
        r@ == toml_part(*v),
        forall|k: int| 0 <= k < held(r@).len() ==> toml_height((#[trigger] held(r@)[k]).1) < toml_height(*v),
{
    match v {
        TomlValue::String(s) => Part::Text(s.clone()),
        TomlValue::Boolean(b) => Part::Flag(*b),
        TomlValue::Array(a) => Part::List(a.iter().collect()),
        TomlValue::Table(t) => Part::Table(t.iter().map(|(k, x)| (k.clone(), x)).collect()),
        _ => Part::Other,
    }
}

/// What a TOML value reads like on one line.
pub uninterp spec fn toml_text(v: toml::Value) -> Chars;

/// `toml::Value`'s `Display`: the text is a function of the value.
#[verifier::external_body]
pub(crate) fn show_toml(v: &toml::Value) -> (r: String)
    ensures
        r@ == toml_text(*v),
{
    v.to_string()
}

/// What a TOML value holds, in pre-order, under a key and at a depth: the value itself, then what it
/// holds, one level deeper.
pub open spec fn toml_nodes(v: toml::Value, key: Chars, depth: usize) -> Seq<BitView>
    decreases toml_height(v), 1int, 0int,
{
    let kids = held(toml_part(v));
    seq![bit_of(toml_part(v), key, depth)] + toml_kids(kids, (depth + 1) as usize, toml_height(v) as int, kids.len() as int)
}

/// What the first `n` of the values that a TOML value of the height `h` holds hold themselves.
pub open spec fn toml_kids(kids: Seq<(Chars, toml::Value)>, depth: usize, h: int, n: int) -> Seq<BitView>
    decreases h, 0int, n,
{
    if n <= 0 {
        Seq::empty()
    } else {
        toml_kids(kids, depth, h, n - 1) + (if toml_height(kids[n - 1].1) < h {
            toml_nodes(kids[n - 1].1, kids[n - 1].0, depth)
        } else {
            Seq::empty()
        })
    }
}

/// What a TOML text holds, in pre-order.
pub open spec fn toml_parsed(text: Chars) -> Option<Seq<BitView>> {
    match toml_doc(text) {
        Some(v) => Some(toml_nodes(v, Seq::empty(), 0)),
        None => None,
    }
}

fn walk_toml(v: &toml::Value, key: &str, depth: usize, out: &mut Vec<Bit>)
    requires
        depth + toml_height(*v) <= usize::MAX,
    ensures
        final(out).deep_view() == old(out).deep_view() + toml_nodes(*v, key@, depth),
    decreases toml_height(*v),
{
    let ghost was = out.deep_view();
    let part = open_toml(v);
    let ghost pv = part@;
    let ghost h = toml_height(*v);
    let ghost kids = held(pv);
    put(out, make_bit(&part, key, depth));
    let ghost top = bit_of(pv, key@, depth);
    assert(was.push(top) + Seq::<BitView>::empty() =~= was.push(top));
    match part {
        Part::List(list) => {
            let mut n: usize = 0;
            while n < list.len()
                invariant
                    n <= list.len(),
                    h == toml_height(*v),
                    depth + h <= usize::MAX,
                    kids.len() == list.len(),
                    forall|k: int| 0 <= k < kids.len() ==> #[trigger] kids[k] == (Seq::<char>::empty(), *list@[k]),
                    forall|k: int| 0 <= k < kids.len() ==> toml_height((#[trigger] kids[k]).1) < h,
                    out.deep_view() == was.push(top) + toml_kids(kids, (depth + 1) as usize, h as int, n as int),
                decreases list.len() - n,
            {
                assert(toml_height(kids[n as int].1) < h);
                let ghost before = toml_kids(kids, (depth + 1) as usize, h as int, n as int);
                walk_toml(list[n], "", depth + 1, out);
                proof {
                    reveal_strlit("");
                    assert(""@ =~= Seq::<char>::empty());
                    let here = toml_nodes(*list@[n as int], Seq::empty(), (depth + 1) as usize);
                    assert((was.push(top) + before) + here =~= was.push(top) + (before + here));
                }
                n = n + 1;
            }
        },
        Part::Table(list) => {
            let mut n: usize = 0;
            while n < list.len()
                invariant
                    n <= list.len(),
                    h == toml_height(*v),
                    depth + h <= usize::MAX,
                    kids.len() == list.len(),
                    forall|k: int| 0 <= k < kids.len() ==> #[trigger] kids[k] == (list@[k].0@, *list@[k].1),
                    forall|k: int| 0 <= k < kids.len() ==> toml_height((#[trigger] kids[k]).1) < h,
                    out.deep_view() == was.push(top) + toml_kids(kids, (depth + 1) as usize, h as int, n as int),
                decreases list.len() - n,
            {
                assert(toml_height(kids[n as int].1) < h);
                let ghost before = toml_kids(kids, (depth + 1) as usize, h as int, n as int);
                walk_toml(list[n].1, list[n].0.as_str(), depth + 1, out);
                proof {
                    let here = toml_nodes(*list@[n as int].1, list@[n as int].0@, (depth + 1) as usize);
                    assert((was.push(top) + before) + here =~= was.push(top) + (before + here));
                }
                n = n + 1;
            }
        },
        _ => {},
    }
    proof {
        let all = toml_kids(kids, (depth + 1) as usize, h as int, kids.len() as int);
        assert(was.push(top) + all =~= was + (seq![top] + all));
    }
}

// ---------- JSON ----------

/// `serde_json::Value`: a document or a part of one, of which nothing is known but what is read from it.
#[verifier::external_type_specification]
#[verifier::external_body]
pub struct ExJsonValue(serde_json::Value);

/// What a JSON value is, one level deep.
pub uninterp spec fn json_part(v: serde_json::Value) -> PartView<serde_json::Value>;

/// How deep a JSON value nests.
pub uninterp spec fn json_height(v: serde_json::Value) -> usize;

/// The document of a JSON text.
pub uninterp spec fn json_doc(text: Chars) -> Option<serde_json::Value>;

/// `serde_json::from_str`: the document is a function of the text, and there is none where the
/// text is not JSON.
#[verifier::external_body]
fn parse_json(text: &str) -> (r: Option<serde_json::Value>)
    ensures
        r == json_doc(text@),
{
    serde_json::from_str(text).ok()
}

/// `serde_json::Value`, one level deep: its text, its truth, or the values it holds, in order, each of which nests
/// less deep than it does.
#[verifier::external_body]
pub(crate) fn open_json(v: &serde_json::Value) -> (r: Part<'_, serde_json::Value>)
    ensures
        r@ == json_part(*v),
        forall|k: int| 0 <= k < held(r@).len() ==> json_height((#[trigger] held(r@)[k]).1) < json_height(*v),
{
    match v {
        JsonValue::String(s) => Part::Text(s.clone()),
        JsonValue::Bool(b) => Part::Flag(*b),
        JsonValue::Array(a) => Part::List(a.iter().collect()),
        JsonValue::Object(t) => Part::Table(t.iter().map(|(k, x)| (k.clone(), x)).collect()),
        _ => Part::Other,
    }
}

/// What a JSON value holds, in pre-order, under a key and at a depth: the value itself, then what it
/// holds, one level deeper.
pub open spec fn json_nodes(v: serde_json::Value, key: Chars, depth: usize) -> Seq<BitView>
    decreases json_height(v), 1int, 0int,
{
    let kids = held(json_part(v));
    seq![bit_of(json_part(v), key, depth)] + json_kids(kids, (depth + 1) as usize, json_height(v) as int, kids.len() as int)
}

/// What the first `n` of the values that a JSON value of the height `h` holds hold themselves.
pub open spec fn json_kids(kids: Seq<(Chars, serde_json::Value)>, depth: usize, h: int, n: int) -> Seq<BitView>
    decreases h, 0int, n,
{
    if n <= 0 {
        Seq::empty()
    } else {
        json_kids(kids, depth, h, n - 1) + (if json_height(kids[n - 1].1) < h {
            json_nodes(kids[n - 1].1, kids[n - 1].0, depth)
        } else {
            Seq::empty()
        })
    }
}

/// What a JSON text holds, in pre-order.
pub open spec fn json_parsed(text: Chars) -> Option<Seq<BitView>> {
    match json_doc(text) {
        Some(v) => Some(json_nodes(v, Seq::empty(), 0)),
        None => None,
    }
}

fn walk_json(v: &serde_json::Value, key: &str, depth: usize, out: &mut Vec<Bit>)
    requires
        depth + json_height(*v) <= usize::MAX,
    ensures
        final(out).deep_view() == old(out).deep_view() + json_nodes(*v, key@, depth),
    decreases json_height(*v),
{
    let ghost was = out.deep_view();
    let part = open_json(v);
    let ghost pv = part@;
    let ghost h = json_height(*v);
    let ghost kids = held(pv);
    put(out, make_bit(&part, key, depth));
    let ghost top = bit_of(pv, key@, depth);
    assert(was.push(top) + Seq::<BitView>::empty() =~= was.push(top));
    match part {
        Part::List(list) => {
            let mut n: usize = 0;
            while n < list.len()
                invariant
                    n <= list.len(),
                    h == json_height(*v),
                    depth + h <= usize::MAX,
                    kids.len() == list.len(),
                    forall|k: int| 0 <= k < kids.len() ==> #[trigger] kids[k] == (Seq::<char>::empty(), *list@[k]),
                    forall|k: int| 0 <= k < kids.len() ==> json_height((#[trigger] kids[k]).1) < h,
                    out.deep_view() == was.push(top) + json_kids(kids, (depth + 1) as usize, h as int, n as int),
                decreases list.len() - n,
            {
                assert(json_height(kids[n as int].1) < h);
                let ghost before = json_kids(kids, (depth + 1) as usize, h as int, n as int);
                walk_json(list[n], "", depth + 1, out);
                proof {
                    reveal_strlit("");
                    assert(""@ =~= Seq::<char>::empty());
                    let here = json_nodes(*list@[n as int], Seq::empty(), (depth + 1) as usize);
                    assert((was.push(top) + before) + here =~= was.push(top) + (before + here));
                }
                n = n + 1;
            }
        },
        Part::Table(list) => {
            let mut n: usize = 0;
            while n < list.len()
                invariant
                    n <= list.len(),
                    h == json_height(*v),
                    depth + h <= usize::MAX,
                    kids.len() == list.len(),
                    forall|k: int| 0 <= k < kids.len() ==> #[trigger] kids[k] == (list@[k].0@, *list@[k].1),
                    forall|k: int| 0 <= k < kids.len() ==> json_height((#[trigger] kids[k]).1) < h,
                    out.deep_view() == was.push(top) + json_kids(kids, (depth + 1) as usize, h as int, n as int),
                decreases list.len() - n,
            {
                assert(json_height(kids[n as int].1) < h);
                let ghost before = json_kids(kids, (depth + 1) as usize, h as int, n as int);
                walk_json(list[n].1, list[n].0.as_str(), depth + 1, out);
                proof {
                    let here = json_nodes(*list@[n as int].1, list@[n as int].0@, (depth + 1) as usize);
                    assert((was.push(top) + before) + here =~= was.push(top) + (before + here));
                }
                n = n + 1;
            }
        },
        _ => {},
    }
    proof {
        let all = json_kids(kids, (depth + 1) as usize, h as int, kids.len() as int);
        assert(was.push(top) + all =~= was + (seq![top] + all));
    }
}

// ---------- documents ----------

/// `doc` is the document of a text, where `nodes` is what the text holds.
pub open spec fn doc_of(nodes: Option<Seq<BitView>>, doc: Option<SyntaxTree>) -> bool {
    match (nodes, doc) {
        (Some(list), Some(t)) => built(nodes_of(list), t@) && t.ok(),
        (None, None) => true,
        _ => false,
    }
}

/// The document of a TOML text.
pub fn read_toml(text: &str) -> (r: Option<SyntaxTree>)
    ensures
        doc_of(toml_parsed(text@), r),
{
    match parse_toml(text) {
        Some(v) => {
            let mut out: Vec<Bit> = Vec::new();
            walk_toml(&v, "", 0, &mut out);
            proof {
                reveal_strlit("");
                assert(""@ =~= Seq::<char>::empty());
                assert(out.deep_view() =~= toml_nodes(v, Seq::empty(), 0));
            }
            Some(SyntaxTree::from_raw(as_nodes(out)))
        },
        None => None,
    }
}

/// The document of a JSON text.
pub fn read_json(text: &str) -> (r: Option<SyntaxTree>)
    ensures
        doc_of(json_parsed(text@), r),
{
    match parse_json(text) {
        Some(v) => {
            let mut out: Vec<Bit> = Vec::new();
            walk_json(&v, "", 0, &mut out);
            proof {
                reveal_strlit("");
                assert(""@ =~= Seq::<char>::empty());
                assert(out.deep_view() =~= json_nodes(v, Seq::empty(), 0));
            }
            Some(SyntaxTree::from_raw(as_nodes(out)))
        },
        None => None,
    }
}

// ---------- reading ----------

/// The value under `key` of `i`, where there is an `i`.
pub open spec fn under(t: Nodes, i: Option<usize>, key: Chars) -> Option<usize> {
    match i {
        Some(n) => if n < t.len() {
            child_of(t, n as int, key)
        } else {
            None
        },
        None => None,
    }
}

/// The root of a document.
pub open spec fn root_of(t: Nodes) -> Option<usize> {
    if t.len() > 0 {
        Some(0)
    } else {
        None
    }
}

/// The text of a string value.
pub open spec fn string_at(t: Nodes, i: Option<usize>) -> Option<Chars> {
    if is_kind(t, i, "string"@) {
        Some(t[i->0 as int].text)
    } else {
        None
    }
}

/// The elements of an array; none where there is no array.
pub open spec fn elements(t: Nodes, i: Option<usize>) -> Seq<usize> {
    if is_kind(t, i, "array"@) {
        t[i->0 as int].children
    } else {
        Seq::empty()
    }
}

/// The strings among the nodes of `kids`.
pub open spec fn strings_in(t: Nodes, kids: Seq<usize>) -> Seq<Chars>
    decreases kids.len(),
{
    if kids.len() == 0 {
        Seq::empty()
    } else if t[kids.last() as int].kind == "string"@ {
        strings_in(t, kids.drop_last()).push(t[kids.last() as int].text)
    } else {
        strings_in(t, kids.drop_last())
    }
}

/// The boolean `true`.
pub open spec fn is_true(t: Nodes, i: Option<usize>) -> bool {
    is_kind(t, i, "boolean"@) && t[i->0 as int].text == "true"@
}

/// The strings of nodes `i` to `n`, in pre-order.
pub open spec fn strings_from(t: Nodes, i: int, n: int) -> Seq<Chars>
    decreases n - i,
{
    if i < 0 || i >= n || i >= t.len() {
        Seq::empty()
    } else if t[i].kind == "string"@ {
        seq![t[i].text] + strings_from(t, i + 1, n)
    } else {
        strings_from(t, i + 1, n)
    }
}

/// The strings anywhere under `i`, in order.
pub open spec fn all_strings(t: Nodes, i: usize) -> Seq<Chars> {
    strings_from(t, i as int, t[i as int].after as int)
}

impl SyntaxTree {
    /// The value under `key` of `i`, where there is an `i`.
    pub fn get(&self, i: Option<usize>, key: &str) -> (r: Option<usize>)
        requires
            self.ok(),
        ensures
            r == under(self@, i, key@),
            r matches Some(c) ==> c < self@.len(),
    {
        match i {
            Some(n) => if n < self.len() {
                self.child(n, key)
            } else {
                None
            },
            None => None,
        }
    }

    /// The root of a document.
    pub fn root(&self) -> (r: Option<usize>)
        ensures
            r == root_of(self@),
    {
        if self.len() > 0 {
            Some(0)
        } else {
            None
        }
    }

    /// The text of a string value.
    pub fn string(&self, i: Option<usize>) -> (r: Option<String>)
        requires
            i matches Some(n) ==> n < self@.len(),
        ensures
            r.deep_view() == string_at(self@, i),
    {
        match i {
            Some(n) => if self.is(n, "string") {
                Some(self.text(n).to_owned())
            } else {
                None
            },
            None => None,
        }
    }

    /// The elements of an array; none where there is no array.
    pub fn array(&self, i: Option<usize>) -> (out: Vec<usize>)
        requires
            self.ok(),
            i matches Some(n) ==> n < self@.len(),
        ensures
            out@ == elements(self@, i),
            forall|k: int| 0 <= k < out@.len() ==> #[trigger] out@[k] < self@.len(),
    {
        match i {
            Some(n) => if self.is(n, "array") {
                assert(crate::tree::node_ok(self@, n as int));
                let out = crate::tree::copy_indices(&self.nodes[n].children);
                assert(out@ == self@[n as int].children);
                out
            } else {
                Vec::new()
            },
            None => Vec::new(),
        }
    }

    /// The strings of an array; none where there is no array.
    pub fn strings(&self, i: Option<usize>) -> (out: Vec<String>)
        requires
            self.ok(),
            i matches Some(n) ==> n < self@.len(),
        ensures
            out.deep_view() == strings_in(self@, elements(self@, i)),
    {
        let kids = self.array(i);
        let mut out: Vec<String> = Vec::new();
        let mut k: usize = 0;
        assert(kids@.take(0) =~= Seq::<usize>::empty());
        assert(out.deep_view() =~= Seq::<Chars>::empty());
        while k < kids.len()
            invariant
                k <= kids.len(),
                forall|k: int| 0 <= k < kids@.len() ==> #[trigger] kids@[k] < self@.len(),
                out.deep_view() == strings_in(self@, kids@.take(k as int)),
            decreases kids.len() - k,
        {
            assert(kids@.take(k + 1).drop_last() =~= kids@.take(k as int));
            if self.is(kids[k], "string") {
                put(&mut out, self.text(kids[k]).to_owned());
            }
            k = k + 1;
        }
        assert(kids@.take(kids@.len() as int) =~= kids@);
        out
    }

    /// Is it the boolean `true`?
    pub fn flag(&self, i: Option<usize>) -> (r: bool)
        requires
            i matches Some(n) ==> n < self@.len(),
        ensures
            r == is_true(self@, i),
    {
        match i {
            Some(n) => self.is(n, "boolean") && same(self.text(n), "true"),
            None => false,
        }
    }

    /// The strings anywhere under `i`, in order.
    pub fn all_strings(&self, i: usize) -> (out: Vec<String>)
        requires
            self.ok(),
            i < self@.len(),
        ensures
            out.deep_view() == all_strings(self@, i),
    {
        assert(crate::tree::node_ok(self@, i as int));
        assert(self@[i as int].after == self.nodes@[i as int].after);
        let n: usize = self.nodes[i].after;
        let mut out: Vec<String> = Vec::new();
        let mut k: usize = i;
        assert(out.deep_view() + strings_from(self@, i as int, n as int) =~= strings_from(self@, i as int, n as int));
        while k < n
            invariant
                i <= k <= n <= self@.len(),
                strings_from(self@, i as int, n as int) == out.deep_view() + strings_from(self@, k as int, n as int),
            decreases n - k,
        {
            if self.is(k, "string") {
                let ghost done = out.deep_view();
                let ghost rest = strings_from(self@, k + 1, n as int);
                put(&mut out, self.text(k).to_owned());
                assert(done + (seq![self@[k as int].text] + rest) =~= out.deep_view() + rest);
            }
            k = k + 1;
        }
        assert(out.deep_view() + Seq::<Chars>::empty() =~= out.deep_view());
        out
    }
}

} // verus!
