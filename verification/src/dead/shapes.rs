//! Fields nothing reads and variants nothing constructs (Rust).
//!
//! Members are merged by bare name across types, so a same-named member elsewhere can only hide a
//! hit.

use vstd::prelude::*;

use crate::config::DeadShapes;
use crate::dead::index::{refs_beyond, FileIndex, SymbolIndex};
use crate::dead::walk::{MemberDef, TypeDef};
use crate::discover::{base_of, basename};
use crate::names::Names;
use crate::order::{ordered, stable_order, Key, KeyView};
use crate::text::{decimal, digits, join, joined, list_has, plus, put, same, starts, starts_with, Chars};
use crate::tree::ints;

verus! {

/// What a shape is.
#[derive(Debug, Clone, Copy, PartialEq, Eq, Structural)]
pub enum ShapeKind {
    Field,
    Variant,
}

/// A never-read field or never-constructed variant.
pub struct Shape {
    pub kind: ShapeKind,
    pub owner: String,
    pub name: String,
    pub line: usize,
    /// Field: the write sites; variant: the match sites (`file line`).
    pub sites: Vec<String>,
    /// `never read`, `never constructed`, `never constructed or matched`.
    pub label: &'static str,
    pub reason: String,
}

/// A [`Shape`] by its contents.
pub struct ShapeView {
    pub kind: ShapeKind,
    pub owner: Chars,
    pub name: Chars,
    pub line: usize,
    pub sites: Seq<Chars>,
    pub label: Chars,
    pub reason: Chars,
}

impl DeepView for Shape {
    type V = ShapeView;

    open spec fn deep_view(&self) -> ShapeView {
        ShapeView {
            kind: self.kind,
            owner: self.owner@,
            name: self.name@,
            line: self.line,
            sites: self.sites.deep_view(),
            label: self.label@,
            reason: self.reason@,
        }
    }
}

// ---------- what all files say of a name ----------

/// Some file reads a field of the name.
pub open spec fn read_somewhere(files: Seq<FileIndex>, name: Chars) -> bool {
    exists|k: int| 0 <= k < files.len() && (#[trigger] files[k]).shapes.field_reads.deep_view().contains(name)
}

/// Some file constructs a variant of the name.
pub open spec fn built_somewhere(files: Seq<FileIndex>, name: Chars) -> bool {
    exists|k: int| 0 <= k < files.len() && (#[trigger] files[k]).shapes.variant_ctors.deep_view().contains(name)
}

/// Some file imports the variants of an enum bare and mentions the name.
pub open spec fn built_bare(files: Seq<FileIndex>, owner: Chars, name: Chars) -> bool {
    exists|k: int|
        0 <= k < files.len() && (#[trigger] files[k]).shapes.wildcard_uses.deep_view().contains(owner) && (
        files[k].refs.of(name).prod > 0 || files[k].refs.of(name).test > 0)
}

/// Some file implements one of the traits for the type.
pub open spec fn implements(files: Seq<FileIndex>, owner: Chars, traits: Seq<Chars>) -> bool {
    exists|k: int, j: int|
        0 <= k < files.len() && 0 <= j < files[k].shapes.trait_impls.len() && #[trigger] impl_fits(
            files[k].shapes.trait_impls.deep_view()[j],
            owner,
            traits,
        )
}

/// An impl of one of the traits for the type.
pub open spec fn impl_fits(i: (Chars, Chars), owner: Chars, traits: Seq<Chars>) -> bool {
    i.0 == owner && traits.contains(i.1)
}

/// The lines of one file's list that carry the name.
pub open spec fn lines_named(list: Seq<(Chars, usize)>, name: Chars) -> Seq<usize>
    decreases list.len(),
{
    if list.len() == 0 {
        Seq::empty()
    } else if list.last().0 == name {
        lines_named(list.drop_last(), name).push(list.last().1)
    } else {
        lines_named(list.drop_last(), name)
    }
}

/// `lines`, each with the number of its file.
pub open spec fn in_file(lines: Seq<usize>, fi: usize) -> Seq<(usize, usize)> {
    Seq::new(lines.len(), |i: int| (fi, lines[i]))
}

/// The list of a file that a question is about: its writes or its matches.
pub open spec fn list_of(f: FileIndex, writes: bool) -> Seq<(Chars, usize)> {
    if writes {
        f.shapes.field_writes.deep_view()
    } else {
        f.shapes.variant_matches.deep_view()
    }
}

/// Every place that writes or matches the name, by file and line, as it was met.
pub open spec fn places(files: Seq<FileIndex>, name: Chars, writes: bool) -> Seq<(usize, usize)>
    decreases files.len(),
{
    if files.len() == 0 {
        Seq::empty()
    } else {
        places(files.drop_last(), name, writes) + in_file(
            lines_named(list_of(files.last(), writes), name),
            (files.len() - 1) as usize,
        )
    }
}

/// The keys that order places by file and line.
pub open spec fn place_keys(list: Seq<(usize, usize)>) -> Seq<KeyView> {
    Seq::new(list.len(), |i: int| KeyView { a: list[i].0, b: list[i].1, s: Seq::empty(), c: 0 })
}

/// How a place prints.
pub open spec fn site_text(files: Seq<FileIndex>, p: (usize, usize)) -> Chars {
    base_of(files[p.0 as int].path@) + " "@ + digits(p.1 as nat)
}

/// The places that write or match the name, in order, as they print.
pub open spec fn sites_of(files: Seq<FileIndex>, name: Chars, writes: bool) -> Seq<Chars> {
    let list = places(files, name, writes);
    let order = ordered(place_keys(list), list.len() as int);
    Seq::new(list.len(), |i: int| site_text(files, list[order[i]]))
}

fn named_lines(list: &Vec<(String, usize)>, name: &str) -> (out: Vec<usize>)
    ensures
        out@ == lines_named(list.deep_view(), name@),
{
    let ghost view = list.deep_view();
    let mut out: Vec<usize> = Vec::new();
    let mut k: usize = 0;
    assert(view.take(0) =~= Seq::<(Chars, usize)>::empty());
    while k < list.len()
        invariant
            k <= list.len(),
            view == list.deep_view(),
            out@ == lines_named(view.take(k as int), name@),
        decreases list.len() - k,
    {
        assert(view.take(k + 1).drop_last() =~= view.take(k as int));
        assert(view[k as int] == (list@[k as int].0@, list@[k as int].1));
        if same(list[k].0.as_str(), name) {
            out.push(list[k].1);
        }
        k = k + 1;
    }
    assert(view.take(view.len() as int) =~= view);
    out
}

fn all_places(files: &Vec<FileIndex>, name: &str, writes: bool) -> (out: Vec<(usize, usize)>)
    ensures
        out@ == places(files@, name@, writes),
        forall|k: int| 0 <= k < out.len() ==> (#[trigger] out@[k]).0 < files.len(),
{
    let mut out: Vec<(usize, usize)> = Vec::new();
    let mut i: usize = 0;
    assert(files@.take(0) =~= Seq::<FileIndex>::empty());
    while i < files.len()
        invariant
            i <= files.len(),
            out@ == places(files@.take(i as int), name@, writes),
            forall|k: int| 0 <= k < out.len() ==> (#[trigger] out@[k]).0 < files.len(),
        decreases files.len() - i,
    {
        assert(files@.take(i + 1).drop_last() =~= files@.take(i as int));
        let f = &files[i];
        let lines = if writes {
            named_lines(&f.shapes.field_writes, name)
        } else {
            named_lines(&f.shapes.variant_matches, name)
        };
        let ghost was = out@;
        let ghost more = in_file(lines@, i);
        let mut k: usize = 0;
        assert(was + more.take(0) =~= was);
        while k < lines.len()
            invariant
                k <= lines.len(),
                i < files.len(),
                more == in_file(lines@, i),
                out@ == was + more.take(k as int),
                forall|k: int| 0 <= k < out.len() ==> (#[trigger] out@[k]).0 < files.len(),
            decreases lines.len() - k,
        {
            out.push((i, lines[k]));
            assert(was + more.take(k + 1) =~= (was + more.take(k as int)).push(more[k as int]));
            k = k + 1;
        }
        assert(more.take(more.len() as int) =~= more);
        i = i + 1;
    }
    assert(files@.take(files@.len() as int) =~= files@);
    out
}

fn sites(files: &Vec<FileIndex>, name: &str, writes: bool) -> (out: Vec<String>)
    ensures
        out.deep_view() == sites_of(files@, name@, writes),
{
    let list = all_places(files, name, writes);
    let mut keys: Vec<Key> = Vec::new();
    let mut k: usize = 0;
    assert(keys.deep_view() =~= place_keys(list@).take(0));
    while k < list.len()
        invariant
            k <= list.len(),
            keys.deep_view() == place_keys(list@).take(k as int),
        decreases list.len() - k,
    {
        let empty = String::new();
        assert(empty@ =~= Seq::<char>::empty());
        put(&mut keys, Key { a: list[k].0, b: list[k].1, s: empty, c: 0 });
        assert(place_keys(list@).take(k + 1) =~= place_keys(list@).take(k as int).push(place_keys(list@)[k as int]));
        k = k + 1;
    }
    assert(place_keys(list@).take(list@.len() as int) =~= place_keys(list@));
    assert(keys.len() == keys.deep_view().len());
    let order = stable_order(&keys);
    let ghost want = sites_of(files@, name@, writes);
    let mut out: Vec<String> = Vec::new();
    k = 0;
    assert(out.deep_view() =~= want.take(0));
    while k < order.len()
        invariant
            k <= order.len() == list.len(),
            list@ == places(files@, name@, writes),
            want == sites_of(files@, name@, writes),
            ints(order@) == ordered(place_keys(list@), list@.len() as int),
            forall|j: int| 0 <= j < order.len() ==> #[trigger] order@[j] < list.len(),
            forall|j: int| 0 <= j < list.len() ==> (#[trigger] list@[j]).0 < files.len(),
            out.deep_view() == want.take(k as int),
        decreases order.len() - k,
    {
        let o: usize = order[k];
        assert(ints(order@)[k as int] == o as int);
        let p: (usize, usize) = list[o];
        let mut text = basename(files[p.0].path.as_str());
        text.append(" ");
        text.append(decimal(p.1).as_str());
        put(&mut out, text);
        assert(want.take(k + 1) =~= want.take(k as int).push(want[k as int]));
        k = k + 1;
    }
    assert(want.take(want.len() as int) =~= want);
    out
}

/// The names some file reads, and those some file constructs.
pub struct Uses {
    pub reads: Names,
    pub ctors: Names,
}

impl Uses {
    /// What it says of every name is what all files say.
    pub open spec fn of(&self, files: Seq<FileIndex>) -> bool {
        &&& self.reads.ok()
        &&& self.ctors.ok()
        &&& forall|name: Chars| #[trigger] self.reads@.contains(name) <==> read_somewhere(files, name)
        &&& forall|name: Chars| #[trigger] self.ctors@.contains(name) <==> built_somewhere(files, name)
    }
}

fn add_all(names: &mut Names, list: &Vec<String>)
    requires
        old(names).ok(),
    ensures
        final(names).ok(),
        forall|n: Chars| #[trigger]
            final(names)@.contains(n) <==> (old(names)@.contains(n) || list.deep_view().contains(n)),
{
    let ghost view = list.deep_view();
    let ghost was = names@;
    let mut k: usize = 0;
    while k < list.len()
        invariant
            k <= list.len(),
            view == list.deep_view(),
            names.ok(),
            forall|n: Chars| #[trigger] names@.contains(n) <==> (was.contains(n) || view.take(k as int).contains(n)),
        decreases list.len() - k,
    {
        let ghost before = names@;
        assert(view[k as int] == list@[k as int]@);
        names.add(list[k].as_str());
        assert forall|n: Chars| #[trigger] names@.contains(n) <==> (was.contains(n) || view.take(k + 1).contains(n)) by {
            let next = view.take(k + 1);
            assert(next[k as int] == view[k as int]);
            if before.contains(n) {
                let i = before.index_of(n);
                assert(names@[i] == n);
            }
            if view.take(k as int).contains(n) {
                let i = choose|i: int| 0 <= i < k && view.take(k as int)[i] == n;
                assert(next[i] == n);
            }
            if next.contains(n) && n != view[k as int] {
                let i = choose|i: int| 0 <= i < k + 1 && next[i] == n;
                assert(view.take(k as int)[i] == n);
            }
            if names@.contains(n) && n != view[k as int] {
                let i = choose|i: int| 0 <= i < names@.len() && names@[i] == n;
                if i < before.len() {
                    assert(before[i] == n);
                }
            }
        }
        k = k + 1;
    }
    assert(view.take(view.len() as int) =~= view);
}

/// Gather what all files read and construct.
pub fn uses(files: &Vec<FileIndex>) -> (r: Uses)
    ensures
        r.of(files@),
{
    let mut reads = Names::new();
    let mut ctors = Names::new();
    let mut i: usize = 0;
    while i < files.len()
        invariant
            i <= files.len(),
            reads.ok(),
            ctors.ok(),
            forall|n: Chars| #[trigger] reads@.contains(n) <==> read_somewhere(files@.take(i as int), n),
            forall|n: Chars| #[trigger] ctors@.contains(n) <==> built_somewhere(files@.take(i as int), n),
        decreases files.len() - i,
    {
        let ghost r0 = reads@;
        let ghost c0 = ctors@;
        add_all(&mut reads, &files[i].shapes.field_reads);
        add_all(&mut ctors, &files[i].shapes.variant_ctors);
        proof {
            let a = files@.take(i as int);
            let b = files@.take(i + 1);
            assert(forall|k: int| 0 <= k < i ==> a[k] == b[k]);
            assert(b[i as int] == files@[i as int]);
            assert forall|n: Chars| #[trigger] reads@.contains(n) <==> read_somewhere(b, n) by {
                if read_somewhere(a, n) {
                    let k = choose|k: int| 0 <= k < a.len() && (#[trigger] a[k]).shapes.field_reads.deep_view().contains(n);
                    assert(b[k].shapes.field_reads.deep_view().contains(n));
                }
                if read_somewhere(b, n) {
                    let k = choose|k: int| 0 <= k < b.len() && (#[trigger] b[k]).shapes.field_reads.deep_view().contains(n);
                    if k < i {
                        assert(a[k].shapes.field_reads.deep_view().contains(n));
                    }
                }
                assert(r0.contains(n) <==> read_somewhere(a, n));
                if b[i as int].shapes.field_reads.deep_view().contains(n) {
                    assert(read_somewhere(b, n));
                }
            }
            assert forall|n: Chars| #[trigger] ctors@.contains(n) <==> built_somewhere(b, n) by {
                if built_somewhere(a, n) {
                    let k = choose|k: int|
                        0 <= k < a.len() && (#[trigger] a[k]).shapes.variant_ctors.deep_view().contains(n);
                    assert(b[k].shapes.variant_ctors.deep_view().contains(n));
                }
                if built_somewhere(b, n) {
                    let k = choose|k: int|
                        0 <= k < b.len() && (#[trigger] b[k]).shapes.variant_ctors.deep_view().contains(n);
                    if k < i {
                        assert(a[k].shapes.variant_ctors.deep_view().contains(n));
                    }
                }
                assert(c0.contains(n) <==> built_somewhere(a, n));
                if b[i as int].shapes.variant_ctors.deep_view().contains(n) {
                    assert(built_somewhere(b, n));
                }
            }
        }
        i = i + 1;
    }
    assert(files@.take(files@.len() as int) =~= files@);
    Uses { reads, ctors }
}

fn is_built_bare(files: &Vec<FileIndex>, owner: &str, name: &str) -> (r: bool)
    requires
        forall|k: int| 0 <= k < files.len() ==> (#[trigger] files@[k]).ok(),
    ensures
        r == built_bare(files@, owner@, name@),
{
    let mut i: usize = 0;
    while i < files.len()
        invariant
            i <= files.len(),
            forall|k: int| 0 <= k < files.len() ==> (#[trigger] files@[k]).ok(),
            forall|k: int|
                0 <= k < i ==> !((#[trigger] files@[k]).shapes.wildcard_uses.deep_view().contains(owner@) && (
                files@[k].refs.of(name@).prod > 0 || files@[k].refs.of(name@).test > 0)),
        decreases files.len() - i,
    {
        let f = &files[i];
        if list_has(&f.shapes.wildcard_uses, owner) && f.refs.get(name).total() > 0 {
            assert(files@[i as int].shapes.wildcard_uses.deep_view().contains(owner@));
            return true;
        }
        i = i + 1;
    }
    false
}

fn is_implemented(files: &Vec<FileIndex>, owner: &str, traits: &Vec<String>) -> (r: bool)
    ensures
        r == implements(files@, owner@, traits.deep_view()),
{
    let mut i: usize = 0;
    while i < files.len()
        invariant
            i <= files.len(),
            forall|k: int, j: int|
                0 <= k < i && 0 <= j < files@[k].shapes.trait_impls.len() ==> !#[trigger] impl_fits(
                    files@[k].shapes.trait_impls.deep_view()[j],
                    owner@,
                    traits.deep_view(),
                ),
        decreases files.len() - i,
    {
        let list = &files[i].shapes.trait_impls;
        let mut j: usize = 0;
        while j < list.len()
            invariant
                j <= list.len(),
                i < files.len(),
                *list == files@[i as int].shapes.trait_impls,
                forall|q: int|
                    0 <= q < j ==> !#[trigger] impl_fits(list.deep_view()[q], owner@, traits.deep_view()),
                forall|k: int, j: int|
                    0 <= k < i && 0 <= j < files@[k].shapes.trait_impls.len() ==> !#[trigger] impl_fits(
                        files@[k].shapes.trait_impls.deep_view()[j],
                        owner@,
                        traits.deep_view(),
                    ),
            decreases list.len() - j,
        {
            assert(list.deep_view()[j as int] == (list@[j as int].0@, list@[j as int].1@));
            if same(list[j].0.as_str(), owner) && list_has(traits, list[j].1.as_str()) {
                assert(impl_fits(
                    files@[i as int].shapes.trait_impls.deep_view()[j as int],
                    owner@,
                    traits.deep_view(),
                ));
                return true;
            }
            j = j + 1;
        }
        i = i + 1;
    }
    false
}

// ---------- candidates ----------

/// Every derive is one that reads no field, or one that serialises.
pub open spec fn derives_fit(derives: Seq<Chars>, cfg: DeadShapes) -> bool {
    forall|k: int|
        0 <= k < derives.len() ==> cfg.allow_derives.deep_view().contains(#[trigger] derives[k])
            || cfg.serializing_derives.deep_view().contains(derives[k])
}

/// Some text of `a` is one of `b`.
pub open spec fn meet(a: Seq<Chars>, b: Seq<Chars>) -> bool {
    exists|k: int| 0 <= k < a.len() && b.contains(#[trigger] a[k])
}

/// Is some string of `a` one of `b`?
pub fn lists_meet(a: &Vec<String>, b: &Vec<String>) -> (r: bool)
    ensures
        r == meet(a.deep_view(), b.deep_view()),
{
    let mut k: usize = 0;
    while k < a.len()
        invariant
            k <= a.len(),
            forall|j: int| 0 <= j < k ==> !b.deep_view().contains(#[trigger] a.deep_view()[j]),
        decreases a.len() - k,
    {
        if list_has(b, a[k].as_str()) {
            assert(b.deep_view().contains(a.deep_view()[k as int]));
            return true;
        }
        k = k + 1;
    }
    false
}

fn derives_ok(derives: &Vec<String>, cfg: &DeadShapes) -> (r: bool)
    ensures
        r == derives_fit(derives.deep_view(), *cfg),
{
    let ghost view = derives.deep_view();
    let mut k: usize = 0;
    while k < derives.len()
        invariant
            k <= derives.len(),
            view == derives.deep_view(),
            forall|j: int|
                0 <= j < k ==> cfg.allow_derives.deep_view().contains(#[trigger] view[j])
                    || cfg.serializing_derives.deep_view().contains(view[j]),
        decreases derives.len() - k,
    {
        assert(view[k as int] == derives@[k as int]@);
        if !(list_has(&cfg.allow_derives, derives[k].as_str()) || list_has(
            &cfg.serializing_derives,
            derives[k].as_str(),
        )) {
            return false;
        }
        k = k + 1;
    }
    true
}

/// The members of the type are checked.
pub open spec fn type_checked(files: Seq<FileIndex>, path: Chars, t: TypeDef, cfg: DeadShapes) -> bool {
    !t.in_test && derives_fit(t.derives.deep_view(), cfg) && !meet(t.attrs.deep_view(), cfg.skip_attrs.deep_view()) && (
    !cfg.require_type_reachable || refs_beyond(files, t.name@, path).prod > 0)
}

fn is_checked(index: &SymbolIndex, path: &str, t: &TypeDef, cfg: &DeadShapes) -> (r: bool)
    requires
        index.ok(),
    ensures
        r == type_checked(index.files@, path@, *t, *cfg),
{
    !t.in_test && derives_ok(&t.derives, cfg) && !lists_meet(&t.attrs, &cfg.skip_attrs) && (!cfg.require_type_reachable
        || index.external_refs(t.name.as_str(), path).prod > 0)
}

/// The first three sites, and dots where there are more.
pub open spec fn first_sites(sites: Seq<Chars>) -> Chars {
    joined(
        if sites.len() > 3 {
            sites.take(3)
        } else {
            sites
        },
        ", "@,
    ) + (if sites.len() > 3 {
        ", ..."@
    } else {
        Seq::empty()
    })
}

fn some_sites(sites: &Vec<String>) -> (r: String)
    ensures
        r@ == first_sites(sites.deep_view()),
{
    let mut listed: Vec<String> = Vec::new();
    let mut k: usize = 0;
    assert(listed.deep_view() =~= sites.deep_view().take(0));
    while k < sites.len() && k < 3
        invariant
            k <= sites.len(),
            k <= 3,
            listed.deep_view() == sites.deep_view().take(k as int),
        decreases sites.len() - k,
    {
        put(&mut listed, sites[k].clone());
        assert(sites.deep_view().take(k + 1) =~= sites.deep_view().take(k as int).push(sites@[k as int]@));
        k = k + 1;
    }
    assert(sites.deep_view().take(sites.len() as int) =~= sites.deep_view());
    let text = join(&listed, ", ");
    if sites.len() > 3 {
        plus(text, ", ...")
    } else {
        assert(text@ + Seq::<char>::empty() =~= text@);
        text
    }
}

/// Where a member stands: `(a.rs 3)`.
pub open spec fn at_text(path: Chars, line: usize) -> Chars {
    "("@ + base_of(path) + " "@ + digits(line as nat) + ")"@
}

fn at(path: &str, line: usize) -> (r: String)
    ensures
        r@ == at_text(path@, line),
{
    let mut o: String = "(".to_owned();
    o.append(basename(path).as_str());
    o.append(" ");
    o.append(decimal(line).as_str());
    o.append(")");
    o
}

/// The line of a field nothing reads.
pub open spec fn field_line(owner: Chars, name: Chars, path: Chars, line: usize, sites: Seq<Chars>) -> Chars {
    let head = "field "@ + owner + "."@ + name + " "@ + at_text(path, line);
    if sites.len() == 0 {
        head + " is never written or read"@
    } else {
        head + " is written at "@ + digits(sites.len()) + " site"@ + (if sites.len() == 1 {
            Seq::empty()
        } else {
            "s"@
        }) + " ("@ + first_sites(sites) + ") and never read"@
    }
}

/// What is reported of a field.
pub open spec fn field_shape(files: Seq<FileIndex>, f: FileIndex, m: MemberDef, cfg: DeadShapes) -> Option<ShapeView> {
    let t = f.shapes.types@[m.type_idx as int];
    if m.type_idx >= f.shapes.types.len() {
        None
    } else if !type_checked(files, f.path@, t, cfg) || starts(m.name@, "_"@) || meet(
        t.derives.deep_view(),
        cfg.serializing_derives.deep_view(),
    ) || read_somewhere(files, m.name@) {
        None
    } else {
        let sites = sites_of(files, m.name@, true);
        Some(
            ShapeView {
                kind: ShapeKind::Field,
                owner: t.name@,
                name: m.name@,
                line: m.line,
                sites,
                label: "never read"@,
                reason: field_line(t.name@, m.name@, f.path@, m.line, sites),
            },
        )
    }
}

/// What is reported of a variant.
pub open spec fn variant_shape(files: Seq<FileIndex>, f: FileIndex, m: MemberDef, cfg: DeadShapes) -> Option<ShapeView> {
    let t = f.shapes.types@[m.type_idx as int];
    if m.type_idx >= f.shapes.types.len() {
        None
    } else if !type_checked(files, f.path@, t, cfg) || t.derives.deep_view().contains("Default"@) || implements(
        files,
        t.name@,
        cfg.exempt_impl_traits.deep_view(),
    ) || built_somewhere(files, m.name@) || built_bare(files, t.name@, m.name@) {
        None
    } else {
        let sites = sites_of(files, m.name@, false);
        let open_ended = t.attrs.deep_view().contains("non_exhaustive"@);
        let head = "variant "@ + t.name@ + "::"@ + m.name@ + " "@ + at_text(f.path@, m.line);
        if sites.len() == 0 {
            if open_ended {
                None
            } else {
                Some(
                    ShapeView {
                        kind: ShapeKind::Variant,
                        owner: t.name@,
                        name: m.name@,
                        line: m.line,
                        sites,
                        label: "never constructed or matched"@,
                        reason: head + " is never constructed or matched"@,
                    },
                )
            }
        } else if !cfg.report_handled_never_produced || (open_ended && cfg.non_exhaustive_hides_handled) {
            None
        } else {
            Some(
                ShapeView {
                    kind: ShapeKind::Variant,
                    owner: t.name@,
                    name: m.name@,
                    line: m.line,
                    sites,
                    label: "never constructed"@,
                    reason: head + " is matched at "@ + first_sites(sites)
                        + " but never constructed: a state nothing produces"@,
                },
            )
        }
    }
}

/// What is reported of a field.
pub fn check_field(index: &SymbolIndex, uses: &Uses, f: &FileIndex, m: &MemberDef, cfg: &DeadShapes) -> (r: Option<
    Shape,
>)
    requires
        index.ok(),
        uses.of(index.files@),
    ensures
        r.deep_view() == field_shape(index.files@, *f, *m, *cfg),
{
    if m.type_idx >= f.shapes.types.len() {
        return None;
    }
    let t = &f.shapes.types[m.type_idx];
    if !is_checked(index, f.path.as_str(), t, cfg) || starts_with(m.name.as_str(), "_") || lists_meet(
        &t.derives,
        &cfg.serializing_derives,
    ) {
        return None;
    }
    if uses.reads.find(m.name.as_str()).is_some() {
        assert(uses.reads@.contains(m.name@));
        return None;
    }
    let sites = sites(&index.files, m.name.as_str(), true);
    let mut o: String = "field ".to_owned();
    o.append(t.name.as_str());
    o.append(".");
    o.append(m.name.as_str());
    o.append(" ");
    o.append(at(f.path.as_str(), m.line).as_str());
    assert(sites.deep_view().len() == sites.len());
    if sites.len() == 0 {
        o.append(" is never written or read");
    } else {
        o.append(" is written at ");
        o.append(decimal(sites.len()).as_str());
        o.append(" site");
        if sites.len() == 1 {
            assert(o@ + Seq::<char>::empty() =~= o@);
        } else {
            o.append("s");
        }
        o.append(" (");
        o.append(some_sites(&sites).as_str());
        o.append(") and never read");
    }
    Some(
        Shape {
            kind: ShapeKind::Field,
            owner: t.name.clone(),
            name: m.name.clone(),
            line: m.line,
            sites,
            label: "never read",
            reason: o,
        },
    )
}

/// What is reported of a variant.
pub fn check_variant(index: &SymbolIndex, uses: &Uses, f: &FileIndex, m: &MemberDef, cfg: &DeadShapes) -> (r: Option<
    Shape,
>)
    requires
        index.ok(),
        uses.of(index.files@),
    ensures
        r.deep_view() == variant_shape(index.files@, *f, *m, *cfg),
{
    if m.type_idx >= f.shapes.types.len() {
        return None;
    }
    let t = &f.shapes.types[m.type_idx];
    if !is_checked(index, f.path.as_str(), t, cfg) || list_has(&t.derives, "Default") || is_implemented(
        &index.files,
        t.name.as_str(),
        &cfg.exempt_impl_traits,
    ) {
        return None;
    }
    if uses.ctors.find(m.name.as_str()).is_some() {
        assert(uses.ctors@.contains(m.name@));
        return None;
    }
    // A wildcard import of the enum makes every bare mention of the variant a construction.
    if is_built_bare(&index.files, t.name.as_str(), m.name.as_str()) {
        return None;
    }
    let sites = sites(&index.files, m.name.as_str(), false);
    let open_ended: bool = list_has(&t.attrs, "non_exhaustive");
    let mut o: String = "variant ".to_owned();
    o.append(t.name.as_str());
    o.append("::");
    o.append(m.name.as_str());
    o.append(" ");
    o.append(at(f.path.as_str(), m.line).as_str());
    assert(sites.deep_view().len() == sites.len());
    if sites.len() == 0 {
        if open_ended {
            return None;
        }
        o.append(" is never constructed or matched");
        return Some(
            Shape {
                kind: ShapeKind::Variant,
                owner: t.name.clone(),
                name: m.name.clone(),
                line: m.line,
                sites,
                label: "never constructed or matched",
                reason: o,
            },
        );
    }
    if !cfg.report_handled_never_produced || (open_ended && cfg.non_exhaustive_hides_handled) {
        return None;
    }
    o.append(" is matched at ");
    o.append(some_sites(&sites).as_str());
    o.append(" but never constructed: a state nothing produces");
    Some(
        Shape {
            kind: ShapeKind::Variant,
            owner: t.name.clone(),
            name: m.name.clone(),
            line: m.line,
            sites,
            label: "never constructed",
            reason: o,
        },
    )
}

/// What is reported of the fields.
pub open spec fn field_shapes(files: Seq<FileIndex>, f: FileIndex, list: Seq<MemberDef>, cfg: DeadShapes) -> Seq<
    ShapeView,
>
    decreases list.len(),
{
    if list.len() == 0 {
        Seq::empty()
    } else {
        match field_shape(files, f, list.last(), cfg) {
            Some(s) => field_shapes(files, f, list.drop_last(), cfg).push(s),
            None => field_shapes(files, f, list.drop_last(), cfg),
        }
    }
}

/// What is reported of the variants.
pub open spec fn variant_shapes(files: Seq<FileIndex>, f: FileIndex, list: Seq<MemberDef>, cfg: DeadShapes) -> Seq<
    ShapeView,
>
    decreases list.len(),
{
    if list.len() == 0 {
        Seq::empty()
    } else {
        match variant_shape(files, f, list.last(), cfg) {
            Some(s) => variant_shapes(files, f, list.drop_last(), cfg).push(s),
            None => variant_shapes(files, f, list.drop_last(), cfg),
        }
    }
}

/// The first shape, from `k` on, on a later line than `line`.
pub open spec fn shape_slot(list: Seq<ShapeView>, line: usize, k: int) -> int
    decreases list.len() - k,
{
    if k < 0 || k >= list.len() {
        list.len() as int
    } else if line < list[k].line {
        k
    } else {
        shape_slot(list, line, k + 1)
    }
}

/// The shapes by line; of one line the earlier one first.
pub open spec fn by_line(list: Seq<ShapeView>) -> Seq<ShapeView>
    decreases list.len(),
{
    if list.len() == 0 {
        Seq::empty()
    } else {
        let rest = by_line(list.drop_last());
        rest.insert(shape_slot(rest, list.last().line, 0), list.last())
    }
}

/// What is reported of a file's members: fields and variants, by line.
pub open spec fn shapes_of(files: Seq<FileIndex>, f: FileIndex, cfg: DeadShapes) -> Seq<ShapeView> {
    by_line(
        field_shapes(files, f, f.shapes.fields@, cfg) + variant_shapes(files, f, f.shapes.variants@, cfg),
    )
}

fn place_shape(out: &mut Vec<Shape>, s: Shape)
    ensures
        final(out).deep_view() == old(out).deep_view().insert(
            shape_slot(old(out).deep_view(), s.line, 0),
            s.deep_view(),
        ),
{
    let ghost list = out.deep_view();
    let mut k: usize = 0;
    while k < out.len() && !(s.line < out[k].line)
        invariant
            k <= out.len(),
            list == out.deep_view(),
            shape_slot(list, s.line, 0) == shape_slot(list, s.line, k as int),
        decreases out.len() - k,
    {
        k = k + 1;
    }
    let ghost v = s.deep_view();
    out.insert(k, s);
    assert(out.deep_view() =~= list.insert(k as int, v));
}

/// What is reported of a file's members: fields and variants, by line.
pub fn shapes(index: &SymbolIndex, uses: &Uses, f: &FileIndex, cfg: &DeadShapes) -> (out: Vec<Shape>)
    requires
        index.ok(),
        uses.of(index.files@),
    ensures
        out.deep_view() == shapes_of(index.files@, *f, *cfg),
{
    let ghost files = index.files@;
    let ghost fields = f.shapes.fields@;
    let ghost variants = f.shapes.variants@;
    let mut out: Vec<Shape> = Vec::new();
    let mut k: usize = 0;
    assert(fields.take(0) =~= Seq::<MemberDef>::empty());
    assert(out.deep_view() =~= Seq::<ShapeView>::empty());
    while k < f.shapes.fields.len()
        invariant
            k <= f.shapes.fields.len(),
            index.ok(),
            uses.of(index.files@),
            files == index.files@,
            fields == f.shapes.fields@,
            out.deep_view() == by_line(field_shapes(files, *f, fields.take(k as int), *cfg)),
        decreases f.shapes.fields.len() - k,
    {
        assert(fields.take(k + 1).drop_last() =~= fields.take(k as int));
        match check_field(index, uses, f, &f.shapes.fields[k], cfg) {
            Some(s) => {
                let ghost all = field_shapes(files, *f, fields.take(k as int), *cfg);
                let ghost v = s.deep_view();
                place_shape(&mut out, s);
                assert(all.push(v).drop_last() =~= all);
            },
            None => {},
        }
        k = k + 1;
    }
    assert(fields.take(fields.len() as int) =~= fields);
    let ghost head = field_shapes(files, *f, fields, *cfg);
    k = 0;
    assert(variants.take(0) =~= Seq::<MemberDef>::empty());
    assert(head + Seq::<ShapeView>::empty() =~= head);
    while k < f.shapes.variants.len()
        invariant
            k <= f.shapes.variants.len(),
            index.ok(),
            uses.of(index.files@),
            files == index.files@,
            variants == f.shapes.variants@,
            out.deep_view() == by_line(head + variant_shapes(files, *f, variants.take(k as int), *cfg)),
        decreases f.shapes.variants.len() - k,
    {
        assert(variants.take(k + 1).drop_last() =~= variants.take(k as int));
        match check_variant(index, uses, f, &f.shapes.variants[k], cfg) {
            Some(s) => {
                let ghost all = variant_shapes(files, *f, variants.take(k as int), *cfg);
                let ghost v = s.deep_view();
                place_shape(&mut out, s);
                assert((head + all.push(v)).drop_last() =~= head + all);
            },
            None => {},
        }
        k = k + 1;
    }
    assert(variants.take(variants.len() as int) =~= variants);
    out
}

/// The reason lines of a file's shapes, capped.
pub open spec fn shape_reasons(shapes: Seq<ShapeView>, cap: nat) -> Seq<Chars> {
    let n = if shapes.len() < cap {
        shapes.len()
    } else {
        cap
    };
    let lines = Seq::new(n, |i: int| shapes[i].reason);
    if shapes.len() > cap {
        lines.push("(+"@ + digits((shapes.len() - cap) as nat) + " more dead shapes in dead_shapes)"@)
    } else {
        lines
    }
}

/// Append the reason lines of a file's shapes, capped.
pub fn push_shape_reasons(shapes: &Vec<Shape>, cap: usize, out: &mut Vec<String>)
    ensures
        final(out).deep_view() == old(out).deep_view() + shape_reasons(shapes.deep_view(), cap as nat),
{
    let ghost view = shapes.deep_view();
    let n: usize = if shapes.len() < cap {
        shapes.len()
    } else {
        cap
    };
    let ghost lines = Seq::new(n as nat, |i: int| view[i].reason);
    let mut k: usize = 0;
    assert(old(out).deep_view() + lines.take(0) =~= old(out).deep_view());
    while k < n
        invariant
            k <= n <= shapes.len(),
            view == shapes.deep_view(),
            lines == Seq::new(n as nat, |i: int| view[i].reason),
            out.deep_view() == old(out).deep_view() + lines.take(k as int),
        decreases n - k,
    {
        put(out, shapes[k].reason.clone());
        assert(old(out).deep_view() + lines.take(k + 1) =~= (old(out).deep_view() + lines.take(k as int)).push(
            lines[k as int],
        ));
        k = k + 1;
    }
    assert(lines.take(n as int) =~= lines);
    if shapes.len() > cap {
        let mut o: String = "(+".to_owned();
        o.append(decimal(shapes.len() - cap).as_str());
        o.append(" more dead shapes in dead_shapes)");
        let ghost v = o@;
        put(out, o);
        assert((old(out).deep_view() + lines).push(v) =~= old(out).deep_view() + lines.push(v));
    }
}

// ---------- laws ----------

/// A field whose name some file reads, on whatever type, is never reported.
pub proof fn a_field_that_is_read_is_never_reported(files: Seq<FileIndex>, f: FileIndex, m: MemberDef, cfg: DeadShapes, k: int)
    requires
        0 <= k < files.len(),
        files[k].shapes.field_reads.deep_view().contains(m.name@),
    ensures
        field_shape(files, f, m, cfg) is None,
{
    assert(read_somewhere(files, m.name@));
}

/// A variant whose name some file constructs, of whatever enum, is never reported.
pub proof fn a_variant_that_is_built_is_never_reported(files: Seq<FileIndex>, f: FileIndex, m: MemberDef, cfg: DeadShapes, k: int)
    requires
        0 <= k < files.len(),
        files[k].shapes.variant_ctors.deep_view().contains(m.name@),
    ensures
        variant_shape(files, f, m, cfg) is None,
{
    assert(built_somewhere(files, m.name@));
}

/// One more file can only hide a field: what some file read before is still read.
pub proof fn another_file_hides_fields(files: Seq<FileIndex>, more: FileIndex, name: Chars)
    requires
        read_somewhere(files, name),
    ensures
        read_somewhere(files.push(more), name),
{
    let k = choose|k: int|
        0 <= k < files.len() && (#[trigger] files[k]).shapes.field_reads.deep_view().contains(name);
    assert(files.push(more)[k] == files[k]);
}

/// One more file can only hide a variant: what some file constructed before still is.
pub proof fn another_file_hides_variants(files: Seq<FileIndex>, more: FileIndex, owner: Chars, name: Chars)
    requires
        built_somewhere(files, name) || built_bare(files, owner, name),
    ensures
        built_somewhere(files.push(more), name) || built_bare(files.push(more), owner, name),
{
    if built_somewhere(files, name) {
        let k = choose|k: int|
            0 <= k < files.len() && (#[trigger] files[k]).shapes.variant_ctors.deep_view().contains(name);
        assert(files.push(more)[k] == files[k]);
    } else {
        let k = choose|k: int|
            0 <= k < files.len() && (#[trigger] files[k]).shapes.wildcard_uses.deep_view().contains(owner) && (
            files[k].refs.of(name).prod > 0 || files[k].refs.of(name).test > 0);
        assert(files.push(more)[k] == files[k]);
    }
}

} // verus!
