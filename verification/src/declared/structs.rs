//! Config structs: which they are, and how they hold each other.

use vstd::prelude::*;

use crate::declared::orphans::{Pass, PassView};
use crate::declared::scope::{is_test_side, scope_of, test_side};
use crate::declared::side::{refs_in, FieldView, FileSide, SideView, StructDecl, StructView, Walker};
use crate::names::{capped, no_refs, ref_sum, RefCount};
use crate::patterns::pattern_hit;
use crate::paths::{join_dir, joined_path};
use crate::text::{list_has, same, starts, starts_with, Chars};

verus! {

// ---------- reads and formats ----------

/// Reads of a field name in the first `n` sides, by context.
pub open spec fn reads_upto(sides: Seq<SideView>, tests: Seq<Chars>, name: Chars, n: int) -> RefCount
    decreases n,
{
    if n <= 0 {
        no_refs()
    } else {
        let before = reads_upto(sides, tests, name, n - 1);
        let s = sides[n - 1];
        let rc = refs_in(s.field_reads, name);
        if !s.rust {
            before
        } else if test_side(s, tests) {
            RefCount { prod: before.prod, test: capped(before.test + capped(rc.prod + rc.test)) }
        } else {
            ref_sum(before, rc)
        }
    }
}

/// Reads of a field name anywhere, by context.
pub fn reads_of(sides: &Vec<FileSide>, tests: &Vec<String>, name: &str) -> (r: RefCount)
    ensures
        r == reads_upto(sides.deep_view(), tests.deep_view(), name@, sides.len() as int),
{
    let ghost view = sides.deep_view();
    let mut r = RefCount { prod: 0, test: 0 };
    let mut k: usize = 0;
    while k < sides.len()
        invariant
            k <= sides.len(),
            view == sides.deep_view(),
            r == reads_upto(view, tests.deep_view(), name@, k as int),
        decreases sides.len() - k,
    {
        let s = &sides[k];
        assert(view[k as int] == s.deep_view());
        if s.rust {
            let rc = s.field_reads_of(name);
            if is_test_side(s, tests) {
                r.test = r.test.saturating_add(rc.total());
            } else {
                r.add(rc);
            }
        }
        k = k + 1;
    }
    r
}

/// The value of the first pair of a name, from `k` on.
pub open spec fn value_from(list: Seq<(Chars, Chars)>, name: Chars, k: int) -> Option<Chars>
    decreases list.len() - k,
{
    if k < 0 || k >= list.len() {
        None
    } else if list[k].0 == name {
        Some(list[k].1)
    } else {
        value_from(list, name, k + 1)
    }
}

/// The format a type is read from, in the sides from `k` on.
pub open spec fn format_from(sides: Seq<SideView>, name: Chars, k: int) -> Option<Chars>
    decreases sides.len() - k,
{
    if k < 0 || k >= sides.len() {
        None
    } else {
        let found = value_from(sides[k].consumed_types, name, 0);
        if sides[k].rust && found is Some {
            found
        } else {
            format_from(sides, name, k + 1)
        }
    }
}

fn value_of(list: &Vec<(String, String)>, name: &str) -> (r: Option<String>)
    ensures
        r.deep_view() == value_from(list.deep_view(), name@, 0),
{
    let ghost view = list.deep_view();
    let mut k: usize = 0;
    while k < list.len()
        invariant
            k <= list.len(),
            view == list.deep_view(),
            value_from(view, name@, 0) == value_from(view, name@, k as int),
        decreases list.len() - k,
    {
        assert(view[k as int] == list@[k as int].deep_view());
        if same(list[k].0.as_str(), name) {
            return Some(list[k].1.clone());
        }
        k = k + 1;
    }
    None
}

/// The format a type is read from.
pub fn format_read(sides: &Vec<FileSide>, name: &str) -> (r: Option<String>)
    ensures
        r.deep_view() == format_from(sides.deep_view(), name@, 0),
{
    let ghost view = sides.deep_view();
    let mut k: usize = 0;
    while k < sides.len()
        invariant
            k <= sides.len(),
            view == sides.deep_view(),
            format_from(view, name@, 0) == format_from(view, name@, k as int),
        decreases sides.len() - k,
    {
        assert(view[k as int] == sides@[k as int].deep_view());
        if sides[k].rust {
            if let Some(f) = value_of(&sides[k].consumed_types, name) {
                return Some(f);
            }
        }
        k = k + 1;
    }
    None
}

// ---------- candidates ----------

/// A candidate: its side and its place among the structs of that side.
pub type Cand = (usize, usize);

/// The struct of a candidate.
pub open spec fn struct_at(sides: Seq<SideView>, c: Cand) -> StructView {
    sides[c.0 as int].structs[c.1 as int]
}

/// A config struct by the call that reads it, the file it stands in or its name.
pub open spec fn is_config(p: PassView, s: SideView, name: Chars) -> bool {
    ||| match format_from(p.sides, name, 0) {
        Some(f) => p.cfg.config_formats.deep_view().contains(f),
        None => false,
    }
    ||| pattern_hit(p.cfg.config_file_regex@, false, s.path)
    ||| pattern_hit(p.cfg.config_struct_regex@, false, name)
}

/// The config structs among the first `n` of side `i`.
pub open spec fn cands_in(p: PassView, i: usize, n: int) -> Seq<Cand>
    decreases n,
{
    if n <= 0 {
        Seq::empty()
    } else {
        let before = cands_in(p, i, n - 1);
        let s = p.sides[i as int];
        if !s.structs[n - 1].in_test && is_config(p, s, s.structs[n - 1].name) {
            before.push((i, (n - 1) as usize))
        } else {
            before
        }
    }
}

/// The config structs of the first `n` sides of a scope.
pub open spec fn cands_scope(p: PassView, scope: Seq<usize>, n: int) -> Seq<Cand>
    decreases n,
{
    if n <= 0 {
        Seq::empty()
    } else {
        let before = cands_scope(p, scope, n - 1);
        let i = scope[n - 1];
        if test_side(p.sides[i as int], p.tests) {
            before
        } else {
            before + cands_in(p, i, p.sides[i as int].structs.len() as int)
        }
    }
}

/// A side that is the root of a binary of a manifest in `dir`.
pub open spec fn bin_root(dir: Chars, path: Chars) -> bool {
    path == joined_path(dir, "src/main.rs"@) || starts(path, joined_path(dir, "src/bin/"@))
}

/// The manifest has a binary.
pub open spec fn has_bin(p: PassView, i: int) -> bool {
    let scope = scope_of(p.manifests, p.sides, i);
    p.manifests[i].has_bin || exists|k: int|
        0 <= k < scope.len() && bin_root(p.manifests[i].dir, p.sides[#[trigger] scope[k] as int].path)
}

/// The knobs of manifest `i` are left alone: it has no binary, and they are no public API.
pub open spec fn no_bin(p: PassView, i: int) -> bool {
    p.cfg.require_bin_target && !p.cfg.config_is_public_api && !has_bin(p, i)
}

/// Some struct of a scope stands outside tests.
pub open spec fn has_struct(p: PassView, scope: Seq<usize>) -> bool {
    exists|k: int| 0 <= k < scope.len() && some_struct(p.sides[#[trigger] scope[k] as int].structs)
}

/// Some struct stands outside tests.
pub open spec fn some_struct(list: Seq<StructView>) -> bool {
    exists|k: int| 0 <= k < list.len() && !(#[trigger] list[k]).in_test
}

/// The config structs of the first `n` manifests, and how many manifests were left alone.
pub open spec fn cands_upto(p: PassView, n: int) -> (Seq<Cand>, nat)
    decreases n,
{
    if n <= 0 {
        (Seq::empty(), 0)
    } else {
        let (before, skipped) = cands_upto(p, n - 1);
        let scope = scope_of(p.manifests, p.sides, n - 1);
        if no_bin(p, n - 1) {
            (before, skipped + (if has_struct(p, scope) {
                1nat
            } else {
                0nat
            }))
        } else {
            (before + cands_scope(p, scope, scope.len() as int), skipped)
        }
    }
}

/// Every candidate is a struct of a side.
pub open spec fn cands_ok(sides: Seq<SideView>, cands: Seq<Cand>) -> bool {
    forall|k: int|
        0 <= k < cands.len() ==> (#[trigger] cands[k]).0 < sides.len() && cands[k].1 < sides[cands[k].0 as int].structs.len()
}

fn config_struct(p: &Pass, w: &Walker, s: &FileSide, name: &str) -> (r: bool)
    requires
        w.of(*p.cfg),
    ensures
        r == is_config(p@, s.deep_view(), name@),
{
    if let Some(f) = format_read(p.sides, name) {
        if list_has(&p.cfg.config_formats, f.as_str()) {
            return true;
        }
    }
    w.config_file.hits(s.path.as_str()) || w.config_struct.hits(name)
}

fn add_cands(p: &Pass, w: &Walker, i: usize, out: &mut Vec<Cand>)
    requires
        w.of(*p.cfg),
        i < p.sides.len(),
        cands_ok(p@.sides, old(out)@),
    ensures
        final(out)@ == old(out)@ + cands_in(p@, i, p@.sides[i as int].structs.len() as int),
        cands_ok(p@.sides, final(out)@),
{
    let ghost was = out@;
    let s = &p.sides[i];
    assert(p@.sides[i as int] == s.deep_view());
    let ghost sv = s.structs.deep_view();
    let mut k: usize = 0;
    assert(was + Seq::<Cand>::empty() =~= was);
    while k < s.structs.len()
        invariant
            k <= s.structs.len(),
            w.of(*p.cfg),
            i < p.sides.len(),
            sv == s.structs.deep_view(),
            p@.sides[i as int] == s.deep_view(),
            out@ == was + cands_in(p@, i, k as int),
            cands_ok(p@.sides, out@),
        decreases s.structs.len() - k,
    {
        let d = &s.structs[k];
        assert(sv[k as int] == d.deep_view());
        if !d.in_test && config_struct(p, w, s, d.name.as_str()) {
            let ghost before = cands_in(p@, i, k as int);
            out.push((i, k));
            assert(was + before.push((i, k)) =~= (was + before).push((i, k)));
        }
        k = k + 1;
    }
    assert(sv.len() == s.structs.len());
}

fn binary(p: &Pass, i: usize) -> (r: bool)
    requires
        p.ok(),
        i < p.manifests.len(),
    ensures
        r == has_bin(p@, i as int),
{
    let m = &p.manifests[i];
    assert(p@.manifests[i as int] == m.deep_view());
    if m.has_bin {
        return true;
    }
    let main = join_dir(m.dir.as_str(), "src/main.rs");
    let bins = join_dir(m.dir.as_str(), "src/bin/");
    let scope = p.scope_at(i);
    let mut k: usize = 0;
    while k < scope.len()
        invariant
            k <= scope.len(),
            i < p.manifests.len(),
            !p@.manifests[i as int].has_bin,
            scope@ == scope_of(p@.manifests, p@.sides, i as int),
            main@ == joined_path(p@.manifests[i as int].dir, "src/main.rs"@),
            bins@ == joined_path(p@.manifests[i as int].dir, "src/bin/"@),
            forall|k: int| 0 <= k < scope.len() ==> #[trigger] scope@[k] < p.sides.len(),
            forall|j: int|
                0 <= j < k ==> !bin_root(p@.manifests[i as int].dir, p@.sides[#[trigger] scope@[j] as int].path),
        decreases scope.len() - k,
    {
        assert(scope@[k as int] < p.sides.len());
        let s = &p.sides[scope[k]];
        assert(p@.sides[scope@[k as int] as int] == s.deep_view());
        if same(s.path.as_str(), main.as_str()) || starts_with(s.path.as_str(), bins.as_str()) {
            assert(bin_root(p@.manifests[i as int].dir, p@.sides[scope@[k as int] as int].path));
            return true;
        }
        k = k + 1;
    }
    false
}

fn any_struct(list: &Vec<StructDecl>) -> (r: bool)
    ensures
        r == some_struct(list.deep_view()),
{
    let ghost view = list.deep_view();
    let mut k: usize = 0;
    while k < list.len()
        invariant
            k <= list.len(),
            view == list.deep_view(),
            forall|j: int| 0 <= j < k ==> (#[trigger] view[j]).in_test,
        decreases list.len() - k,
    {
        assert(view[k as int] == list@[k as int].deep_view());
        if !list[k].in_test {
            return true;
        }
        k = k + 1;
    }
    false
}

fn struct_in(p: &Pass, scope: &Vec<usize>) -> (r: bool)
    requires
        forall|k: int| 0 <= k < scope.len() ==> #[trigger] scope@[k] < p.sides.len(),
    ensures
        r == has_struct(p@, scope@),
{
    let mut k: usize = 0;
    while k < scope.len()
        invariant
            k <= scope.len(),
            forall|k: int| 0 <= k < scope.len() ==> #[trigger] scope@[k] < p.sides.len(),
            forall|j: int| 0 <= j < k ==> !some_struct(p@.sides[#[trigger] scope@[j] as int].structs),
        decreases scope.len() - k,
    {
        assert(scope@[k as int] < p.sides.len());
        let s = &p.sides[scope[k]];
        assert(p@.sides[scope@[k as int] as int] == s.deep_view());
        if any_struct(&s.structs) {
            assert(some_struct(p@.sides[scope@[k as int] as int].structs));
            return true;
        }
        k = k + 1;
    }
    false
}

/// The config structs of every manifest, and how many manifests were left alone.
pub fn first_candidates(p: &Pass, w: &Walker) -> (r: (Vec<Cand>, usize))
    requires
        p.ok(),
        w.of(*p.cfg),
    ensures
        (r.0@, r.1 as nat) == cands_upto(p@, p@.manifests.len() as int),
        cands_ok(p@.sides, r.0@),
{
    let mut out: Vec<Cand> = Vec::new();
    let mut skipped: usize = 0;
    assert(out@ =~= Seq::<Cand>::empty());
    assert(p.manifests.len() == p@.manifests.len());
    let mut i: usize = 0;
    while i < p.manifests.len()
        invariant
            i <= p.manifests.len(),
            skipped <= i,
            p.ok(),
            w.of(*p.cfg),
            (out@, skipped as nat) == cands_upto(p@, i as int),
            cands_ok(p@.sides, out@),
        decreases p.manifests.len() - i,
    {
        let scope = p.scope_at(i);
        if p.cfg.require_bin_target && !p.cfg.config_is_public_api && !binary(p, i) {
            if struct_in(p, scope) {
                skipped = skipped + 1;
            }
        } else {
            let ghost was = out@;
            let mut k: usize = 0;
            assert(was + Seq::<Cand>::empty() =~= was);
            while k < scope.len()
                invariant
                    k <= scope.len(),
                    w.of(*p.cfg),
                    forall|k: int| 0 <= k < scope.len() ==> #[trigger] scope@[k] < p.sides.len(),
                    out@ == was + cands_scope(p@, scope@, k as int),
                    cands_ok(p@.sides, out@),
                decreases scope.len() - k,
            {
                assert(scope@[k as int] < p.sides.len());
                let j: usize = scope[k];
                assert(p@.sides[j as int] == p.sides@[j as int].deep_view());
                if !is_test_side(&p.sides[j], p.tests) {
                    let ghost before = cands_scope(p@, scope@, k as int);
                    add_cands(p, w, j, &mut out);
                    proof {
                        let more = cands_in(p@, j, p@.sides[j as int].structs.len() as int);
                        assert(was + (before + more) =~= was + before + more);
                    }
                }
                k = k + 1;
            }
        }
        i = i + 1;
    }
    (out, skipped)
}

// ---------- field types ----------

/// The first candidate, from `k` on, whose struct has this name.
pub open spec fn cand_from(sides: Seq<SideView>, cands: Seq<Cand>, name: Chars, k: int) -> Option<usize>
    decreases cands.len() - k,
{
    if k < 0 || k >= cands.len() {
        None
    } else if struct_at(sides, cands[k]).name == name {
        Some(k as usize)
    } else {
        cand_from(sides, cands, name, k + 1)
    }
}

/// The first struct of a name outside tests, from `k` on.
pub open spec fn struct_from(list: Seq<StructView>, name: Chars, k: int) -> Option<usize>
    decreases list.len() - k,
{
    if k < 0 || k >= list.len() {
        None
    } else if list[k].name == name && !list[k].in_test {
        Some(k as usize)
    } else {
        struct_from(list, name, k + 1)
    }
}

/// The first struct of a name outside tests, in the sides from `k` on.
pub open spec fn declared_from(sides: Seq<SideView>, tests: Seq<Chars>, name: Chars, k: int) -> Option<Cand>
    decreases sides.len() - k,
{
    if k < 0 || k >= sides.len() {
        None
    } else {
        let found = struct_from(sides[k].structs, name, 0);
        if sides[k].rust && !test_side(sides[k], tests) && found is Some {
            Some((k as usize, found->0))
        } else {
            declared_from(sides, tests, name, k + 1)
        }
    }
}

/// The candidates with the structs that the field types `fields`, from `k` on, reach.
pub open spec fn reached(sides: Seq<SideView>, tests: Seq<Chars>, cands: Seq<Cand>, fields: Seq<FieldView>, k: int) -> Seq<Cand>
    decreases fields.len() - k,
{
    if k < 0 || k >= fields.len() {
        cands
    } else {
        reached(sides, tests, reach(sides, tests, cands, fields[k]), fields, k + 1)
    }
}

/// The candidates with the struct a field's type names, where it is none yet.
pub open spec fn reach(sides: Seq<SideView>, tests: Seq<Chars>, cands: Seq<Cand>, f: FieldView) -> Seq<Cand> {
    match f.ty {
        None => cands,
        Some(t) => if cand_from(sides, cands, t, 0) is Some {
            cands
        } else {
            match declared_from(sides, tests, t, 0) {
                Some(c) => cands.push(c),
                None => cands,
            }
        },
    }
}

/// The names of the structs of the first `n` sides.
pub open spec fn all_names(sides: Seq<SideView>, n: int) -> Seq<Chars>
    decreases n,
{
    if n <= 0 {
        Seq::empty()
    } else {
        all_names(sides, n - 1) + Seq::new(sides[n - 1].structs.len(), |k: int| sides[n - 1].structs[k].name)
    }
}

/// How many of `names` no candidate has.
pub open spec fn unnamed(sides: Seq<SideView>, cands: Seq<Cand>, names: Seq<Chars>) -> nat
    decreases names.len(),
{
    if names.len() == 0 {
        0
    } else {
        unnamed(sides, cands, names.drop_last()) + (if cand_from(sides, cands, names.last(), 0) is Some {
            0nat
        } else {
            1nat
        })
    }
}

proof fn cand_stays(sides: Seq<SideView>, cands: Seq<Cand>, c: Cand, name: Chars, k: int)
    requires
        0 <= k <= cands.len(),
    ensures
        cand_from(sides, cands, name, k) is Some ==> cand_from(sides, cands.push(c), name, k) is Some,
        struct_at(sides, c).name == name ==> cand_from(sides, cands.push(c), name, k) is Some,
    decreases cands.len() - k,
{
    if k < cands.len() {
        cand_stays(sides, cands, c, name, k + 1);
    } else {
        assert(cands.push(c)[k] == c);
        assert(cand_from(sides, cands.push(c), name, k + 1) is None);
    }
}

proof fn unnamed_shrinks(sides: Seq<SideView>, cands: Seq<Cand>, c: Cand, names: Seq<Chars>)
    ensures
        unnamed(sides, cands.push(c), names) <= unnamed(sides, cands, names),
        names.contains(struct_at(sides, c).name) && cand_from(sides, cands, struct_at(sides, c).name, 0) is None ==> unnamed(
            sides,
            cands.push(c),
            names,
        ) < unnamed(sides, cands, names),
    decreases names.len(),
{
    if names.len() > 0 {
        unnamed_shrinks(sides, cands, c, names.drop_last());
        cand_stays(sides, cands, c, names.last(), 0);
        let x = struct_at(sides, c).name;
        if names.contains(x) && cand_from(sides, cands, x, 0) is None && names.last() != x {
            let j = choose|j: int| 0 <= j < names.len() && names[j] == x;
            assert(names.drop_last()[j] == x);
        }
    }
}

proof fn struct_is_there(list: Seq<StructView>, name: Chars, k: int)
    requires
        0 <= k,
        list.len() <= usize::MAX,
    ensures
        struct_from(list, name, k) matches Some(i) ==> i < list.len() && list[i as int].name == name,
    decreases list.len() - k,
{
    if k < list.len() {
        struct_is_there(list, name, k + 1);
    }
}

/// Machine sizes.
pub open spec fn fits(sides: Seq<SideView>) -> bool {
    sides.len() <= usize::MAX && forall|k: int| 0 <= k < sides.len() ==> (#[trigger] sides[k]).structs.len() <= usize::MAX
}

proof fn declared_is_there(sides: Seq<SideView>, tests: Seq<Chars>, name: Chars, k: int)
    requires
        0 <= k,
        fits(sides),
    ensures
        declared_from(sides, tests, name, k) matches Some(c) ==> c.0 < sides.len() && c.1 < sides[c.0 as int].structs.len()
            && struct_at(sides, c).name == name,
    decreases sides.len() - k,
{
    if k < sides.len() {
        struct_is_there(sides[k].structs, name, 0);
        declared_is_there(sides, tests, name, k + 1);
    }
}

proof fn names_hold(sides: Seq<SideView>, n: int, c: Cand)
    requires
        c.0 < n <= sides.len(),
        c.1 < sides[c.0 as int].structs.len(),
    ensures
        all_names(sides, n).contains(struct_at(sides, c).name),
    decreases n,
{
    let x = struct_at(sides, c).name;
    let before = all_names(sides, n - 1);
    let own = Seq::new(sides[n - 1].structs.len(), |k: int| sides[n - 1].structs[k].name);
    if c.0 == n - 1 {
        assert(own[c.1 as int] == x);
        assert((before + own)[before.len() + c.1] == x);
    } else {
        names_hold(sides, n - 1, c);
        let j = choose|j: int| 0 <= j < before.len() && before[j] == x;
        assert((before + own)[j] == x);
    }
}

proof fn reach_shrinks(sides: Seq<SideView>, tests: Seq<Chars>, cands: Seq<Cand>, f: FieldView)
    requires
        fits(sides),
    ensures
        reach(sides, tests, cands, f) == cands || unnamed(
            sides,
            reach(sides, tests, cands, f),
            all_names(sides, sides.len() as int),
        ) < unnamed(sides, cands, all_names(sides, sides.len() as int)),
        cands_ok(sides, cands) ==> cands_ok(sides, reach(sides, tests, cands, f)),
        reach(sides, tests, cands, f).len() >= cands.len(),
{
    if let Some(t) = f.ty {
        if cand_from(sides, cands, t, 0) is None {
            declared_is_there(sides, tests, t, 0);
            if let Some(c) = declared_from(sides, tests, t, 0) {
                names_hold(sides, sides.len() as int, c);
                unnamed_shrinks(sides, cands, c, all_names(sides, sides.len() as int));
            }
        }
    }
}

/// Reaching over the fields of a struct leaves fewer names, or adds nothing.
pub proof fn reached_shrinks(sides: Seq<SideView>, tests: Seq<Chars>, cands: Seq<Cand>, fields: Seq<FieldView>, k: int)
    requires
        fits(sides),
        0 <= k,
    ensures
        reached(sides, tests, cands, fields, k) == cands || unnamed(
            sides,
            reached(sides, tests, cands, fields, k),
            all_names(sides, sides.len() as int),
        ) < unnamed(sides, cands, all_names(sides, sides.len() as int)),
        cands_ok(sides, cands) ==> cands_ok(sides, reached(sides, tests, cands, fields, k)),
        reached(sides, tests, cands, fields, k).len() >= cands.len(),
    decreases fields.len() - k,
{
    if k < fields.len() {
        reach_shrinks(sides, tests, cands, fields[k]);
        reached_shrinks(sides, tests, reach(sides, tests, cands, fields[k]), fields, k + 1);
    }
}

/// The candidates with every struct that field types reach from the candidate at `at` on.
pub open spec fn grown(sides: Seq<SideView>, tests: Seq<Chars>, cands: Seq<Cand>, at: int) -> Seq<Cand>
    decreases unnamed(sides, cands, all_names(sides, sides.len() as int)), cands.len() - at,
    when fits(sides)
{
    if at < 0 || at >= cands.len() {
        cands
    } else {
        proof {
            reached_shrinks(sides, tests, cands, struct_at(sides, cands[at]).fields, 0);
        }
        grown(sides, tests, reached(sides, tests, cands, struct_at(sides, cands[at]).fields, 0), at + 1)
    }
}

/// The first candidate whose struct has this name.
pub fn cand_named(sides: &Vec<FileSide>, cands: &Vec<Cand>, name: &str) -> (r: Option<usize>)
    requires
        cands_ok(sides.deep_view(), cands@),
    ensures
        r == cand_from(sides.deep_view(), cands@, name@, 0),
        r matches Some(c) ==> c < cands.len(),
{
    let ghost view = sides.deep_view();
    let mut k: usize = 0;
    while k < cands.len()
        invariant
            k <= cands.len(),
            view == sides.deep_view(),
            cands_ok(view, cands@),
            cand_from(view, cands@, name@, 0) == cand_from(view, cands@, name@, k as int),
        decreases cands.len() - k,
    {
        let c: Cand = cands[k];
        assert(cands@[k as int].0 < view.len());
        assert(view[c.0 as int] == sides@[c.0 as int].deep_view());
        assert(view[c.0 as int].structs[c.1 as int] == sides@[c.0 as int].structs@[c.1 as int].deep_view());
        if same(sides[c.0].structs[c.1].name.as_str(), name) {
            return Some(k);
        }
        k = k + 1;
    }
    None
}

fn struct_named(list: &Vec<StructDecl>, name: &str) -> (r: Option<usize>)
    ensures
        r == struct_from(list.deep_view(), name@, 0),
{
    let ghost view = list.deep_view();
    let mut k: usize = 0;
    while k < list.len()
        invariant
            k <= list.len(),
            view == list.deep_view(),
            struct_from(view, name@, 0) == struct_from(view, name@, k as int),
        decreases list.len() - k,
    {
        assert(view[k as int] == list@[k as int].deep_view());
        if same(list[k].name.as_str(), name) && !list[k].in_test {
            return Some(k);
        }
        k = k + 1;
    }
    None
}

fn declared_struct(sides: &Vec<FileSide>, tests: &Vec<String>, name: &str) -> (r: Option<Cand>)
    ensures
        r == declared_from(sides.deep_view(), tests.deep_view(), name@, 0),
{
    let ghost view = sides.deep_view();
    let mut k: usize = 0;
    while k < sides.len()
        invariant
            k <= sides.len(),
            view == sides.deep_view(),
            declared_from(view, tests.deep_view(), name@, 0) == declared_from(view, tests.deep_view(), name@, k as int),
        decreases sides.len() - k,
    {
        let s = &sides[k];
        assert(view[k as int] == s.deep_view());
        if s.rust && !is_test_side(s, tests) {
            if let Some(st) = struct_named(&s.structs, name) {
                return Some((k, st));
            }
        }
        k = k + 1;
    }
    None
}

/// The lists of a vector of sides are of machine size.
fn sides_fit(sides: &Vec<FileSide>)
    ensures
        fits(sides.deep_view()),
{
    let ghost view = sides.deep_view();
    let n: usize = sides.len();
    assert(n == view.len());
    let mut k: usize = 0;
    while k < n
        invariant
            k <= n,
            n == sides.len(),
            view == sides.deep_view(),
            forall|j: int| 0 <= j < k ==> (#[trigger] view[j]).structs.len() <= usize::MAX,
        decreases n - k,
    {
        assert(view[k as int] == sides@[k as int].deep_view());
        let m: usize = sides[k].structs.len();
        assert(m == view[k as int].structs.len());
        k = k + 1;
    }
}

/// Field types reached from a candidate are candidates too: a `Deserialize` struct a config struct
/// holds is config.
pub fn grow(sides: &Vec<FileSide>, tests: &Vec<String>, cands: Vec<Cand>) -> (out: Vec<Cand>)
    requires
        cands_ok(sides.deep_view(), cands@),
    ensures
        fits(sides.deep_view()),
        out@ == grown(sides.deep_view(), tests.deep_view(), cands@, 0),
        cands_ok(sides.deep_view(), out@),
{
    let ghost view = sides.deep_view();
    let ghost tv = tests.deep_view();
    let ghost first = cands@;
    sides_fit(sides);
    let mut out = cands;
    let mut at: usize = 0;
    while at < out.len()
        invariant
            at <= out.len(),
            view == sides.deep_view(),
            tv == tests.deep_view(),
            fits(view),
            cands_ok(view, out@),
            grown(view, tv, first, 0) == grown(view, tv, out@, at as int),
        decreases unnamed(view, out@, all_names(view, view.len() as int)), out.len() - at,
    {
        let ghost now = out@;
        let c: Cand = out[at];
        assert(out@[at as int].0 < view.len());
        assert(view[c.0 as int] == sides@[c.0 as int].deep_view());
        assert(view[c.0 as int].structs[c.1 as int] == sides@[c.0 as int].structs@[c.1 as int].deep_view());
        let fields = &sides[c.0].structs[c.1].fields;
        let ghost fv = fields.deep_view();
        proof {
            reached_shrinks(view, tv, now, fv, 0);
        }
        let mut k: usize = 0;
        while k < fields.len()
            invariant
                k <= fields.len(),
                view == sides.deep_view(),
                tv == tests.deep_view(),
                fv == fields.deep_view(),
                fits(view),
                cands_ok(view, out@),
                reached(view, tv, now, fv, 0) == reached(view, tv, out@, fv, k as int),
            decreases fields.len() - k,
        {
            let f = &fields[k];
            assert(fv[k as int] == f.deep_view());
            proof {
                reach_shrinks(view, tv, out@, fv[k as int]);
            }
            if let Some(t) = &f.ty {
                if cand_named(sides, &out, t.as_str()).is_none() {
                    if let Some(c) = declared_struct(sides, tests, t.as_str()) {
                        out.push(c);
                    }
                }
            }
            k = k + 1;
        }
        at = at + 1;
    }
    out
}

} // verus!
