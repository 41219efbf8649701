//! Layers of settings: what one file says goes over what stands below it.
//!
//! A layer is the list of its leaves: each is a path of keys with the text of its value, and a table
//! with nothing in it is a leaf without one.

use vstd::prelude::*;

use crate::docs::{held, open_toml, parse_toml, show_toml, toml_doc, toml_height, toml_part, toml_text, Part, PartView};
use crate::text::{copy_list, put, same, Chars};

verus! {

/// One setting.
pub struct Leaf {
    pub path: Vec<String>,
    /// The text of the value; none for a table with nothing in it.
    pub value: Option<String>,
}

/// A [`Leaf`] by its contents.
pub struct LeafView {
    pub path: Seq<Chars>,
    pub value: Option<Chars>,
}

impl DeepView for Leaf {
    type V = LeafView;

    open spec fn deep_view(&self) -> LeafView {
        LeafView { path: self.path.deep_view(), value: self.value.deep_view() }
    }
}

/// One path begins another.
pub open spec fn begins(a: Seq<Chars>, b: Seq<Chars>) -> bool {
    a.len() <= b.len() && forall|i: int| 0 <= i < a.len() ==> #[trigger] a[i] == b[i]
}

/// A setting takes the place of one below: a value that of everything at or under its path, and
/// anything that of a value on the way to it.
pub open spec fn replaces(over: LeafView, base: LeafView) -> bool {
    begins(base.path, over.path) || (over.value is Some && begins(over.path, base.path))
}

/// Some setting takes the place of one below.
pub open spec fn replaced(over: Seq<LeafView>, base: LeafView) -> bool {
    exists|i: int| 0 <= i < over.len() && replaces(#[trigger] over[i], base)
}

/// A table with nothing in it says nothing over one that has something.
pub open spec fn filled(base: Seq<LeafView>, over: LeafView) -> bool {
    over.value is None && exists|i: int|
        0 <= i < base.len() && begins(over.path, (#[trigger] base[i]).path) && over.path.len() < base[i].path.len()
}

/// The first `n` settings below that nothing replaces.
pub open spec fn kept(base: Seq<LeafView>, over: Seq<LeafView>, n: int) -> Seq<LeafView>
    decreases n,
{
    if n <= 0 {
        Seq::empty()
    } else {
        let was = kept(base, over, n - 1);
        if replaced(over, base[n - 1]) {
            was
        } else {
            was.push(base[n - 1])
        }
    }
}

/// Settings with the first `n` of the layer over them.
pub open spec fn with_layer(acc: Seq<LeafView>, base: Seq<LeafView>, over: Seq<LeafView>, n: int) -> Seq<LeafView>
    decreases n,
{
    if n <= 0 {
        acc
    } else {
        let was = with_layer(acc, base, over, n - 1);
        if filled(base, over[n - 1]) {
            was
        } else {
            was.push(over[n - 1])
        }
    }
}

/// One layer over another.
pub open spec fn layered(base: Seq<LeafView>, over: Seq<LeafView>) -> Seq<LeafView> {
    with_layer(kept(base, over, base.len() as int), base, over, over.len() as int)
}

// ---------- reading a layer ----------

/// The settings of a value at a path: those of a table are the settings of what it holds, each one
/// key further, and a table with nothing in it is one without a value; any other value is one setting.
pub open spec fn leaves_of(v: toml::Value, at: Seq<Chars>) -> Seq<LeafView>
    decreases toml_height(v), 1int, 0int,
{
    match toml_part(v) {
        PartView::Table(kids) => if kids.len() > 0 {
            leaves_in(kids, at, toml_height(v) as int, kids.len() as int)
        } else if at.len() > 0 {
            seq![LeafView { path: at, value: None }]
        } else {
            Seq::empty()
        },
        _ => seq![LeafView { path: at, value: Some(toml_text(v)) }],
    }
}

/// The settings of the first `n` values of a table of the height `h`.
pub open spec fn leaves_in(kids: Seq<(Chars, toml::Value)>, at: Seq<Chars>, h: int, n: int) -> Seq<LeafView>
    decreases h, 0int, n,
{
    if n <= 0 {
        Seq::empty()
    } else {
        leaves_in(kids, at, h, n - 1) + (if toml_height(kids[n - 1].1) < h {
            leaves_of(kids[n - 1].1, at.push(kids[n - 1].0))
        } else {
            Seq::empty()
        })
    }
}

/// The settings of a file's text, where it is TOML.
pub open spec fn layer_of(text: Chars) -> Option<Seq<LeafView>> {
    match toml_doc(text) {
        Some(v) => Some(leaves_of(v, Seq::empty())),
        None => None,
    }
}

fn add_leaves(v: &toml::Value, at: &Vec<String>, out: &mut Vec<Leaf>)
    ensures
        final(out).deep_view() == old(out).deep_view() + leaves_of(*v, at.deep_view()),
    decreases toml_height(*v),
{
    let ghost was = out.deep_view();
    let ghost av = at.deep_view();
    let ghost h = toml_height(*v);
    let part = open_toml(v);
    let ghost kids = held(part@);
    match part {
        Part::Table(list) => {
            if list.len() == 0 {
                if at.len() > 0 {
                    put(out, Leaf { path: copy_list(at), value: None });
                }
                assert(out.deep_view() =~= was + leaves_of(*v, av));
                return;
            }
            let mut n: usize = 0;
            assert(was + leaves_in(kids, av, h as int, 0) =~= was);
            while n < list.len()
                invariant
                    n <= list.len(),
                    h == toml_height(*v),
                    av == at.deep_view(),
                    kids.len() == list.len(),
                    forall|k: int| 0 <= k < kids.len() ==> #[trigger] kids[k] == (list@[k].0@, *list@[k].1),
                    forall|k: int| 0 <= k < kids.len() ==> toml_height((#[trigger] kids[k]).1) < h,
                    out.deep_view() == was + leaves_in(kids, av, h as int, n as int),
                decreases list.len() - n,
            {
                assert(toml_height(kids[n as int].1) < h);
                let mut path = copy_list(at);
                put(&mut path, list[n].0.as_str().to_owned());
                let ghost before = leaves_in(kids, av, h as int, n as int);
                add_leaves(list[n].1, &path, out);
                proof {
                    let here = leaves_of(*list@[n as int].1, av.push(list@[n as int].0@));
                    assert((was + before) + here =~= was + (before + here));
                }
                n = n + 1;
            }
        },
        _ => {
            put(out, Leaf { path: copy_list(at), value: Some(show_toml(v)) });
            assert(out.deep_view() =~= was + leaves_of(*v, av));
        },
    }
}

/// The settings of a file's text, each at the path of its keys; none where the text is not TOML.
pub fn read_layer(text: &str) -> (r: Option<Vec<Leaf>>)
    ensures
        r.deep_view() == layer_of(text@),
{
    match parse_toml(text) {
        Some(v) => {
            let at: Vec<String> = Vec::new();
            let mut out: Vec<Leaf> = Vec::new();
            assert(at.deep_view() =~= Seq::<Chars>::empty());
            add_leaves(&v, &at, &mut out);
            assert(out.deep_view() =~= leaves_of(v, Seq::empty()));
            Some(out)
        },
        None => None,
    }
}

// ---------- one layer over another ----------

fn does_begin(a: &Vec<String>, b: &Vec<String>) -> (r: bool)
    ensures
        r == begins(a.deep_view(), b.deep_view()),
{
    let ghost va = a.deep_view();
    let ghost vb = b.deep_view();
    if a.len() > b.len() {
        assert(va.len() > vb.len());
        return false;
    }
    let mut i: usize = 0;
    while i < a.len()
        invariant
            i <= a.len() <= b.len(),
            va == a.deep_view(),
            vb == b.deep_view(),
            forall|j: int| 0 <= j < i ==> #[trigger] va[j] == vb[j],
        decreases a.len() - i,
    {
        assert(va[i as int] == a@[i as int]@);
        assert(vb[i as int] == b@[i as int]@);
        if !same(a[i].as_str(), b[i].as_str()) {
            assert(va[i as int] != vb[i as int]);
            return false;
        }
        i = i + 1;
    }
    true
}

fn is_replaced(over: &Vec<Leaf>, base: &Leaf) -> (r: bool)
    ensures
        r == replaced(over.deep_view(), base.deep_view()),
{
    let ghost view = over.deep_view();
    let ghost bv = base.deep_view();
    let mut i: usize = 0;
    while i < over.len()
        invariant
            i <= over.len(),
            view == over.deep_view(),
            bv == base.deep_view(),
            forall|j: int| 0 <= j < i ==> !replaces(#[trigger] view[j], bv),
        decreases over.len() - i,
    {
        let o = &over[i];
        assert(view[i as int] == o.deep_view());
        if does_begin(&base.path, &o.path) || (o.value.is_some() && does_begin(&o.path, &base.path)) {
            assert(replaces(view[i as int], bv));
            return true;
        }
        i = i + 1;
    }
    false
}

fn is_filled(base: &Vec<Leaf>, over: &Leaf) -> (r: bool)
    ensures
        r == filled(base.deep_view(), over.deep_view()),
{
    if over.value.is_some() {
        return false;
    }
    let ghost view = base.deep_view();
    let ghost ov = over.deep_view();
    let mut i: usize = 0;
    while i < base.len()
        invariant
            i <= base.len(),
            view == base.deep_view(),
            ov == over.deep_view(),
            over.value is None,
            forall|j: int| 0 <= j < i ==> !(begins(ov.path, (#[trigger] view[j]).path) && ov.path.len() < view[j].path.len()),
        decreases base.len() - i,
    {
        let b = &base[i];
        assert(view[i as int] == b.deep_view());
        assert(b.path.len() == b.deep_view().path.len());
        assert(over.path.len() == ov.path.len());
        if over.path.len() < b.path.len() && does_begin(&over.path, &b.path) {
            assert(begins(ov.path, view[i as int].path));
            return true;
        }
        i = i + 1;
    }
    false
}

fn copy_leaf(l: &Leaf) -> (r: Leaf)
    ensures
        r.deep_view() == l.deep_view(),
{
    Leaf {
        path: crate::text::copy_list(&l.path),
        value: match &l.value {
            Some(s) => Some(s.as_str().to_owned()),
            None => None,
        },
    }
}

/// Puts one layer over another.
pub fn merge_tables(base: &mut Vec<Leaf>, over: &Vec<Leaf>)
    ensures
        final(base).deep_view() == layered(old(base).deep_view(), over.deep_view()),
{
    let ghost bv = base.deep_view();
    let ghost ov = over.deep_view();
    let mut out: Vec<Leaf> = Vec::new();
    let mut n: usize = 0;
    assert(out.deep_view() =~= Seq::<LeafView>::empty());
    while n < base.len()
        invariant
            n <= base.len(),
            bv == base.deep_view(),
            ov == over.deep_view(),
            out.deep_view() == kept(bv, ov, n as int),
        decreases base.len() - n,
    {
        assert(bv[n as int] == base@[n as int].deep_view());
        if !is_replaced(over, &base[n]) {
            put(&mut out, copy_leaf(&base[n]));
        }
        n = n + 1;
    }
    let ghost first = out.deep_view();
    let mut n: usize = 0;
    while n < over.len()
        invariant
            n <= over.len(),
            bv == base.deep_view(),
            ov == over.deep_view(),
            out.deep_view() == with_layer(first, bv, ov, n as int),
        decreases over.len() - n,
    {
        assert(ov[n as int] == over@[n as int].deep_view());
        if !is_filled(base, &over[n]) {
            put(&mut out, copy_leaf(&over[n]));
        }
        n = n + 1;
    }
    *base = out;
}

// ---------- laws ----------

proof fn kept_holds(base: Seq<LeafView>, over: Seq<LeafView>, n: int, i: int)
    requires
        0 <= i < n <= base.len(),
        !replaced(over, base[i]),
    ensures
        kept(base, over, n).contains(base[i]),
    decreases n,
{
    let was = kept(base, over, n - 1);
    let now = kept(base, over, n);
    if i < n - 1 {
        kept_holds(base, over, n - 1, i);
        let j = choose|j: int| 0 <= j < was.len() && was[j] == base[i];
        assert(now[j] == base[i]);
    } else {
        assert(now[now.len() - 1] == base[i]);
    }
}

proof fn layer_keeps(acc: Seq<LeafView>, base: Seq<LeafView>, over: Seq<LeafView>, n: int, x: LeafView)
    requires
        acc.contains(x),
    ensures
        with_layer(acc, base, over, n).contains(x),
    decreases n,
{
    if n > 0 {
        layer_keeps(acc, base, over, n - 1, x);
        let was = with_layer(acc, base, over, n - 1);
        let j = choose|j: int| 0 <= j < was.len() && was[j] == x;
        assert(with_layer(acc, base, over, n)[j] == x);
    }
}

proof fn layer_adds(acc: Seq<LeafView>, base: Seq<LeafView>, over: Seq<LeafView>, n: int, i: int)
    requires
        0 <= i < n <= over.len(),
        !filled(base, over[i]),
    ensures
        with_layer(acc, base, over, n).contains(over[i]),
    decreases n,
{
    let was = with_layer(acc, base, over, n - 1);
    let now = with_layer(acc, base, over, n);
    if i < n - 1 {
        layer_adds(acc, base, over, n - 1, i);
        let j = choose|j: int| 0 <= j < was.len() && was[j] == over[i];
        assert(now[j] == over[i]);
    } else {
        assert(now[now.len() - 1] == over[i]);
    }
}

/// A setting that the layer over it does not name keeps its value.
pub proof fn an_unnamed_setting_is_kept(base: Seq<LeafView>, over: Seq<LeafView>, i: int)
    requires
        0 <= i < base.len(),
        forall|j: int|
            0 <= j < over.len() ==> !begins((#[trigger] over[j]).path, base[i].path) && !begins(base[i].path, over[j].path),
    ensures
        layered(base, over).contains(base[i]),
{
    kept_holds(base, over, base.len() as int, i);
    layer_keeps(kept(base, over, base.len() as int), base, over, over.len() as int, base[i]);
}

/// Every value that the layer over another gives holds in the result.
pub proof fn what_a_layer_says_holds(base: Seq<LeafView>, over: Seq<LeafView>, i: int)
    requires
        0 <= i < over.len(),
        over[i].value is Some,
    ensures
        layered(base, over).contains(over[i]),
{
    layer_adds(kept(base, over, base.len() as int), base, over, over.len() as int, i);
}

/// A layer that says nothing changes nothing.
pub proof fn an_empty_layer_changes_nothing(base: Seq<LeafView>)
    ensures
        layered(base, Seq::empty()) == base,
{
    nothing_is_replaced(base, base.len() as int);
    assert(base.take(base.len() as int) =~= base);
}

proof fn nothing_is_replaced(base: Seq<LeafView>, n: int)
    requires
        0 <= n <= base.len(),
    ensures
        kept(base, Seq::empty(), n) == base.take(n),
    decreases n,
{
    if n > 0 {
        nothing_is_replaced(base, n - 1);
        assert(base.take(n) =~= base.take(n - 1).push(base[n - 1]));
    } else {
        assert(base.take(0) =~= Seq::<LeafView>::empty());
    }
}

} // verus!
