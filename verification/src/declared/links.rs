//! How config structs hold each other: sections, and what stands under them.

use vstd::prelude::*;

use crate::declared::side::{FieldDecl, FieldView, FileSide, SideView, StructDecl};
use crate::declared::structs::{cand_from, cand_named, cands_ok, format_from, format_read, struct_at, Cand};
use crate::text::{put, same, Chars};

verus! {

/// Where a candidate is held: a candidate and one of its fields.
pub type Holder = Option<(usize, usize)>;

/// The candidates and where each is held.
pub struct LinksView {
    pub sides: Seq<SideView>,
    pub cands: Seq<Cand>,
    pub parents: Seq<Holder>,
}

/// The candidates and where each is held.
pub struct Links<'a> {
    pub sides: &'a Vec<FileSide>,
    pub cands: &'a Vec<Cand>,
    pub parents: Vec<Holder>,
}

impl<'a> View for Links<'a> {
    type V = LinksView;

    open spec fn view(&self) -> LinksView {
        LinksView { sides: self.sides.deep_view(), cands: self.cands@, parents: self.parents@ }
    }
}

/// A holder is a field of a candidate.
pub open spec fn holders_ok(sides: Seq<SideView>, cands: Seq<Cand>, parents: Seq<Holder>) -> bool {
    &&& parents.len() == cands.len()
    &&& forall|k: int|
        0 <= k < parents.len() ==> ((#[trigger] parents[k]) matches Some((p, f)) ==> p < cands.len() && f < struct_at(
            sides,
            cands[p as int],
        ).fields.len())
}

impl<'a> Links<'a> {
    /// Candidates are structs and holders are fields.
    pub open spec fn ok(&self) -> bool {
        cands_ok(self@.sides, self@.cands) && holders_ok(self@.sides, self@.cands, self@.parents)
    }

    /// The struct of a candidate.
    pub fn decl(&self, c: usize) -> (r: &StructDecl)
        requires
            self.ok(),
            c < self.cands.len(),
        ensures
            r.deep_view() == struct_at(self@.sides, self@.cands[c as int]),
    {
        let x: Cand = self.cands[c];
        assert(self@.cands[c as int].0 < self@.sides.len());
        assert(self@.sides[x.0 as int] == self.sides@[x.0 as int].deep_view());
        let s = &self.sides[x.0];
        assert(self@.sides[x.0 as int].structs[x.1 as int] == s.structs@[x.1 as int].deep_view());
        &s.structs[x.1]
    }

    /// The side of a candidate.
    pub fn side(&self, c: usize) -> (r: &FileSide)
        requires
            self.ok(),
            c < self.cands.len(),
        ensures
            r.deep_view() == self@.sides[self@.cands[c as int].0 as int],
    {
        let x: Cand = self.cands[c];
        assert(self@.cands[c as int].0 < self@.sides.len());
        assert(self@.sides[x.0 as int] == self.sides@[x.0 as int].deep_view());
        &self.sides[x.0]
    }
}

/// The candidate a field's type names.
pub open spec fn child_at(sides: Seq<SideView>, cands: Seq<Cand>, f: FieldView) -> Option<usize> {
    match f.ty {
        Some(t) => cand_from(sides, cands, t, 0),
        None => None,
    }
}

/// Field `fi` of candidate `ci` holds what its type names, where nothing held it before.
pub open spec fn link_step(
    sides: Seq<SideView>,
    cands: Seq<Cand>,
    parents: Seq<Holder>,
    ci: usize,
    fi: usize,
    f: FieldView,
) -> Seq<Holder> {
    match child_at(sides, cands, f) {
        Some(c) => if c != ci && parents[c as int] is None {
            parents.update(c as int, Some((ci, fi)))
        } else {
            parents
        },
        None => parents,
    }
}

/// The holders after the first `n` fields of candidate `ci`.
pub open spec fn linked_fields(
    sides: Seq<SideView>,
    cands: Seq<Cand>,
    parents: Seq<Holder>,
    ci: usize,
    n: int,
) -> Seq<Holder>
    decreases n,
{
    if n <= 0 {
        parents
    } else {
        link_step(
            sides,
            cands,
            linked_fields(sides, cands, parents, ci, n - 1),
            ci,
            (n - 1) as usize,
            struct_at(sides, cands[ci as int]).fields[n - 1],
        )
    }
}

/// The holders after the first `n` candidates.
pub open spec fn linked_upto(sides: Seq<SideView>, cands: Seq<Cand>, n: int) -> Seq<Holder>
    decreases n,
{
    if n <= 0 {
        Seq::new(cands.len(), |k: int| None::<(usize, usize)>)
    } else {
        linked_fields(
            sides,
            cands,
            linked_upto(sides, cands, n - 1),
            (n - 1) as usize,
            struct_at(sides, cands[n - 1]).fields.len() as int,
        )
    }
}

/// The candidate a field's type names.
pub fn child_of_field(sides: &Vec<FileSide>, cands: &Vec<Cand>, f: &FieldDecl) -> (r: Option<usize>)
    requires
        cands_ok(sides.deep_view(), cands@),
    ensures
        r == child_at(sides.deep_view(), cands@, f.deep_view()),
        r matches Some(c) ==> c < cands.len(),
{
    match &f.ty {
        Some(t) => cand_named(sides, cands, t.as_str()),
        None => None,
    }
}

/// The candidates, each with the first field that holds it.
pub fn link<'a>(sides: &'a Vec<FileSide>, cands: &'a Vec<Cand>) -> (r: Links<'a>)
    requires
        cands_ok(sides.deep_view(), cands@),
    ensures
        r.ok(),
        r@ == (LinksView {
            sides: sides.deep_view(),
            cands: cands@,
            parents: linked_upto(sides.deep_view(), cands@, cands.len() as int),
        }),
{
    let ghost view = sides.deep_view();
    let ghost cv = cands@;
    let mut parents: Vec<Holder> = Vec::new();
    let mut k: usize = 0;
    while k < cands.len()
        invariant
            k <= cands.len(),
            parents.len() == k,
            forall|j: int| 0 <= j < k ==> (#[trigger] parents@[j]) is None,
        decreases cands.len() - k,
    {
        parents.push(None);
        k = k + 1;
    }
    assert(parents@ =~= linked_upto(view, cv, 0));
    let mut ci: usize = 0;
    while ci < cands.len()
        invariant
            ci <= cands.len(),
            view == sides.deep_view(),
            cv == cands@,
            cands_ok(view, cv),
            holders_ok(view, cv, parents@),
            parents@ == linked_upto(view, cv, ci as int),
        decreases cands.len() - ci,
    {
        let ghost was = parents@;
        let c: Cand = cands[ci];
        assert(cands@[ci as int].0 < view.len());
        assert(view[c.0 as int] == sides@[c.0 as int].deep_view());
        assert(view[c.0 as int].structs[c.1 as int] == sides@[c.0 as int].structs@[c.1 as int].deep_view());
        let fields = &sides[c.0].structs[c.1].fields;
        let ghost fv = fields.deep_view();
        assert(fv.len() == fields.len());
        let mut fi: usize = 0;
        while fi < fields.len()
            invariant
                fi <= fields.len(),
                ci < cands.len(),
                view == sides.deep_view(),
                cv == cands@,
                cands_ok(view, cv),
                fv == fields.deep_view(),
                fv.len() == fields.len(),
                fv == struct_at(view, cv[ci as int]).fields,
                holders_ok(view, cv, parents@),
                parents@ == linked_fields(view, cv, was, ci, fi as int),
            decreases fields.len() - fi,
        {
            assert(fv[fi as int] == fields@[fi as int].deep_view());
            let ghost now = parents@;
            if let Some(child) = child_of_field(sides, cands, &fields[fi]) {
                if child != ci && parents[child].is_none() {
                    parents.set(child, Some((ci, fi)));
                    assert forall|k: int| 0 <= k < parents@.len() implies ((#[trigger] parents@[k]) matches Some((p, f)) ==> p
                        < cv.len() && f < struct_at(view, cv[p as int]).fields.len()) by {
                        if k != child {
                            assert(parents@[k] == now[k]);
                        }
                    }
                }
            }
            fi = fi + 1;
        }
        ci = ci + 1;
    }
    Links { sides, cands, parents }
}

// ---------- ways through the links ----------

/// How many of `0..n` are not in `seen`.
pub open spec fn unseen(seen: Seq<usize>, n: int) -> nat
    decreases n,
{
    if n <= 0 {
        0
    } else {
        unseen(seen, n - 1) + (if seen.contains((n - 1) as usize) {
            0nat
        } else {
            1nat
        })
    }
}

/// Seeing one more leaves fewer unseen.
pub proof fn unseen_shrinks(seen: Seq<usize>, x: usize, n: int)
    requires
        n <= usize::MAX,
    ensures
        unseen(seen.push(x), n) <= unseen(seen, n),
        x < n && !seen.contains(x) ==> unseen(seen.push(x), n) < unseen(seen, n),
    decreases n,
{
    if n > 0 {
        unseen_shrinks(seen, x, n - 1);
        let m = (n - 1) as usize;
        if seen.contains(m) {
            let j = choose|j: int| 0 <= j < seen.len() && seen[j] == m;
            assert(seen.push(x)[j] == m);
        }
        if x == m {
            assert(seen.push(x)[seen.len() as int] == m);
        } else if seen.push(x).contains(m) {
            let j = choose|j: int| 0 <= j < seen.push(x).len() && seen.push(x)[j] == m;
            assert(seen[j] == m);
        }
    }
}

/// The way up from a candidate: the outermost one, and the field keys from there down.
pub open spec fn up_from(l: LinksView, cur: usize, seen: Seq<usize>, keys: Seq<Chars>) -> (usize, Seq<Chars>)
    decreases unseen(seen, l.cands.len() as int),
    when l.cands.len() <= usize::MAX
{
    match l.parents[cur as int] {
        Some((p, f)) => if cur < l.cands.len() && !seen.contains(cur) {
            proof {
                unseen_shrinks(seen, cur, l.cands.len() as int);
            }
            up_from(l, p, seen.push(cur), seq![struct_at(l.sides, l.cands[p as int]).fields[f as int].key] + keys)
        } else {
            (cur, keys)
        },
        None => (cur, keys),
    }
}

/// The section path of a candidate: the outermost struct, and the field keys down to this one.
pub open spec fn path_to(l: LinksView, c: usize) -> (usize, Seq<Chars>) {
    up_from(l, c, Seq::empty(), Seq::empty())
}

/// Is it one of the list?
pub fn is_among(list: &Vec<usize>, x: usize) -> (r: bool)
    ensures
        r == list@.contains(x),
{
    let mut k: usize = 0;
    while k < list.len()
        invariant
            k <= list.len(),
            forall|j: int| 0 <= j < k ==> list@[j] != x,
        decreases list.len() - k,
    {
        if list[k] == x {
            return true;
        }
        k = k + 1;
    }
    false
}

/// The keys of the fields that are knobs, among the first `n`.
pub open spec fn knob_keys(fields: Seq<FieldView>, n: int) -> Seq<Chars>
    decreases n,
{
    if n <= 0 {
        Seq::empty()
    } else if fields[n - 1].skip {
        knob_keys(fields, n - 1)
    } else {
        knob_keys(fields, n - 1).push(fields[n - 1].key)
    }
}

/// The candidates the knobs among the first `n` fields hold.
pub open spec fn held(l: LinksView, fields: Seq<FieldView>, n: int) -> Seq<usize>
    decreases n,
{
    if n <= 0 {
        Seq::empty()
    } else {
        let before = held(l, fields, n - 1);
        match child_at(l.sides, l.cands, fields[n - 1]) {
            Some(c) => if fields[n - 1].skip {
                before
            } else {
                before.push(c)
            },
            None => before,
        }
    }
}

/// The knobs of the candidates on the stack and of those they hold, the last one first.
pub open spec fn under_from(l: LinksView, stack: Seq<usize>, seen: Seq<usize>, out: Seq<Chars>) -> Seq<Chars>
    decreases unseen(seen, l.cands.len() as int), stack.len(),
    when l.cands.len() <= usize::MAX
{
    if stack.len() == 0 {
        out
    } else {
        let c = stack.last();
        if c >= l.cands.len() || seen.contains(c) {
            under_from(l, stack.drop_last(), seen, out)
        } else {
            proof {
                unseen_shrinks(seen, c, l.cands.len() as int);
            }
            let fields = struct_at(l.sides, l.cands[c as int]).fields;
            under_from(
                l,
                stack.drop_last() + held(l, fields, fields.len() as int),
                seen.push(c),
                out + knob_keys(fields, fields.len() as int),
            )
        }
    }
}

/// Every knob under a candidate.
pub open spec fn knobs_under(l: LinksView, c: usize) -> Seq<Chars> {
    under_from(l, seq![c], Seq::empty(), Seq::empty())
}

/// The keys of the fields that are knobs.
pub fn keys_of(fields: &Vec<FieldDecl>) -> (out: Vec<String>)
    ensures
        out.deep_view() == knob_keys(fields.deep_view(), fields.len() as int),
{
    let ghost fv = fields.deep_view();
    let mut out: Vec<String> = Vec::new();
    assert(out.deep_view() =~= Seq::<Chars>::empty());
    let mut k: usize = 0;
    while k < fields.len()
        invariant
            k <= fields.len(),
            fv == fields.deep_view(),
            out.deep_view() == knob_keys(fv, k as int),
        decreases fields.len() - k,
    {
        assert(fv[k as int] == fields@[k as int].deep_view());
        if !fields[k].skip {
            put(&mut out, fields[k].key.clone());
        }
        k = k + 1;
    }
    out
}

impl<'a> Links<'a> {
    /// The section path of a candidate: the outermost struct, and the field keys down to this one.
    pub fn path_of(&self, c: usize) -> (r: (usize, Vec<String>))
        requires
            self.ok(),
            c < self.cands.len(),
        ensures
            self@.cands.len() <= usize::MAX,
            (r.0, r.1.deep_view()) == path_to(self@, c),
            r.0 < self.cands.len(),
    {
        let ghost l = self@;
        let n: usize = self.cands.len();
        assert(n == l.cands.len());
        let mut cur: usize = c;
        let mut seen: Vec<usize> = Vec::new();
        let mut keys: Vec<String> = Vec::new();
        assert(seen@ =~= Seq::<usize>::empty());
        assert(keys.deep_view() =~= Seq::<Chars>::empty());
        loop
            invariant
                self.ok(),
                l == self@,
                n == self.cands.len(),
                n == l.cands.len(),
                cur < n,
                path_to(l, c) == up_from(l, cur, seen@, keys.deep_view()),
            decreases unseen(seen@, n as int),
        {
            match self.parents[cur] {
                None => {
                    return (cur, keys);
                },
                Some((p, f)) => {
                    if is_among(&seen, cur) {
                        return (cur, keys);
                    }
                    proof {
                        unseen_shrinks(seen@, cur, n as int);
                    }
                    assert(self.parents@[cur as int] == Some((p, f)));
                    seen.push(cur);
                    let d = self.decl(p);
                    assert(d.deep_view().fields[f as int] == d.fields@[f as int].deep_view());
                    let ghost was = keys.deep_view();
                    let key = d.fields[f].key.clone();
                    let ghost x = key@;
                    keys.insert(0, key);
                    assert(keys.deep_view() =~= seq![x] + was);
                    cur = p;
                },
            }
        }
    }

    fn children(&self, fields: &Vec<FieldDecl>) -> (out: Vec<usize>)
        requires
            self.ok(),
        ensures
            out@ == held(self@, fields.deep_view(), fields.len() as int),
            forall|k: int| 0 <= k < out.len() ==> #[trigger] out@[k] < self.cands.len(),
    {
        let ghost fv = fields.deep_view();
        let mut out: Vec<usize> = Vec::new();
        assert(out@ =~= Seq::<usize>::empty());
        let mut k: usize = 0;
        while k < fields.len()
            invariant
                k <= fields.len(),
                self.ok(),
                fv == fields.deep_view(),
                out@ == held(self@, fv, k as int),
                forall|k: int| 0 <= k < out.len() ==> #[trigger] out@[k] < self.cands.len(),
            decreases fields.len() - k,
        {
            assert(fv[k as int] == fields@[k as int].deep_view());
            if !fields[k].skip {
                if let Some(c) = child_of_field(self.sides, self.cands, &fields[k]) {
                    out.push(c);
                }
            }
            k = k + 1;
        }
        out
    }

    /// Every knob under a candidate.
    pub fn descendants(&self, c: usize) -> (out: Vec<String>)
        requires
            self.ok(),
            c < self.cands.len(),
        ensures
            self@.cands.len() <= usize::MAX,
            out.deep_view() == knobs_under(self@, c),
    {
        let ghost l = self@;
        let n: usize = self.cands.len();
        assert(n == l.cands.len());
        let mut stack: Vec<usize> = Vec::new();
        stack.push(c);
        let mut seen: Vec<usize> = Vec::new();
        let mut out: Vec<String> = Vec::new();
        assert(stack@ =~= seq![c]);
        assert(seen@ =~= Seq::<usize>::empty());
        assert(out.deep_view() =~= Seq::<Chars>::empty());
        while stack.len() > 0
            invariant
                self.ok(),
                l == self@,
                n == self.cands.len(),
                n == l.cands.len(),
                forall|k: int| 0 <= k < stack.len() ==> #[trigger] stack@[k] < n,
                knobs_under(l, c) == under_from(l, stack@, seen@, out.deep_view()),
            decreases unseen(seen@, n as int), stack.len(),
        {
            let ghost was = stack@;
            let top: usize = stack[stack.len() - 1];
            assert(stack@[stack@.len() - 1] < n);
            stack.truncate(stack.len() - 1);
            assert(stack@ =~= was.drop_last());
            if !is_among(&seen, top) {
                proof {
                    unseen_shrinks(seen@, top, n as int);
                }
                seen.push(top);
                let fields = &self.decl(top).fields;
                let keys = keys_of(fields);
                crate::text::extend(&mut out, &keys);
                let mut more = self.children(fields);
                let ghost mv = more@;
                let ghost rest = stack@;
                stack.append(&mut more);
                assert(stack@ =~= rest + mv);
                assert(fields.len() == fields.deep_view().len());
                assert forall|k: int| 0 <= k < stack.len() implies #[trigger] stack@[k] < n by {
                    if k < rest.len() {
                        assert(rest[k] == was[k]);
                    } else {
                        assert(mv[k - rest.len()] < n);
                    }
                }
            }
        }
        out
    }

    /// What a program reads the outermost struct `root` from.
    pub fn source_of(&self, root: usize) -> (r: String)
        requires
            self.ok(),
            root < self.cands.len(),
        ensures
            r@ == source_at(self@, root),
    {
        let s = self.side(root);
        assert(s.config_literals.len() == s.deep_view().config_literals.len());
        if s.config_literals.len() > 0 {
            assert(s.deep_view().config_literals[0] == s.config_literals@[0]@);
            return s.config_literals[0].clone();
        }
        match format_read(self.sides, self.decl(root).name.as_str()) {
            None => "a config file".to_owned(),
            Some(f) => {
                let x = f.as_str();
                if same(x, "toml") {
                    "TOML".to_owned()
                } else if same(x, "serde_json") || same(x, "json") {
                    "JSON".to_owned()
                } else if same(x, "serde_yaml") || same(x, "serde_yml") || same(x, "serde_yaml_ng") || same(x, "yaml") {
                    "YAML".to_owned()
                } else {
                    f
                }
            },
        }
    }
}

/// What a format crate is called in a report.
pub open spec fn format_name(f: Chars) -> Chars {
    if f == "toml"@ {
        "TOML"@
    } else if f == "serde_json"@ || f == "json"@ {
        "JSON"@
    } else if f == "serde_yaml"@ || f == "serde_yml"@ || f == "serde_yaml_ng"@ || f == "yaml"@ {
        "YAML"@
    } else {
        f
    }
}

/// What a program reads the outermost struct `root` from: a file its source names, else a format.
pub open spec fn source_at(l: LinksView, root: usize) -> Chars {
    let s = l.sides[l.cands[root as int].0 as int];
    if s.config_literals.len() > 0 {
        s.config_literals[0]
    } else {
        match format_from(l.sides, struct_at(l.sides, l.cands[root as int]).name, 0) {
            Some(f) => format_name(f),
            None => "a config file"@,
        }
    }
}

} // verus!
