//! Groups: the functions that share a combination of parameter names.

use vstd::prelude::*;

use crate::clumps::side::{FileSide, FnSite, FnView, ParamView, SideView};
use crate::config::Clumps;
use crate::names::Names;
use crate::order::{ordered, stable_order, Key, KeyView};
use crate::text::{join, joined, put, same, Chars};
use crate::tree::ints;

verus! {

/// A function: the number of its file and its number there.
pub type Site = (usize, usize);

/// The functions whose parameters hold `names`.
pub struct Group {
    pub names: Vec<String>,
    pub sites: Vec<Site>,
}

/// A [`Group`] by its contents.
pub struct GroupView {
    pub names: Seq<Chars>,
    pub sites: Seq<Site>,
}

impl DeepView for Group {
    type V = GroupView;

    open spec fn deep_view(&self) -> GroupView {
        GroupView { names: self.names.deep_view(), sites: self.sites@ }
    }
}

/// A function of the files.
pub open spec fn site_ok(sides: Seq<SideView>, s: Site) -> bool {
    s.0 < sides.len() && s.1 < sides[s.0 as int].functions.len()
}

/// All are functions of the files.
pub open spec fn sites_ok(sides: Seq<SideView>, s: Seq<Site>) -> bool {
    forall|i: int| 0 <= i < s.len() ==> site_ok(sides, #[trigger] s[i])
}

/// All groups are of functions of the files.
pub open spec fn groups_ok(sides: Seq<SideView>, g: Seq<GroupView>) -> bool {
    forall|i: int| 0 <= i < g.len() ==> sites_ok(sides, (#[trigger] g[i]).sites) && g[i].sites.len() > 0
}

/// The first group, from `i` on, of some names.
pub open spec fn group_at(g: Seq<GroupView>, names: Seq<Chars>, i: int) -> Option<int>
    decreases g.len() - i,
{
    if i < 0 || i >= g.len() {
        None
    } else if g[i].names == names {
        Some(i)
    } else {
        group_at(g, names, i + 1)
    }
}

/// Groups with one more function in that of some names.
pub open spec fn with_site(g: Seq<GroupView>, names: Seq<Chars>, s: Site) -> Seq<GroupView> {
    match group_at(g, names, 0) {
        Some(i) => g.update(i, GroupView { names, sites: g[i].sites.push(s) }),
        None => g.push(GroupView { names, sites: seq![s] }),
    }
}

proof fn group_at_is_first(g: Seq<GroupView>, names: Seq<Chars>, i: int)
    requires
        0 <= i,
    ensures
        match group_at(g, names, i) {
            Some(j) => i <= j < g.len() && g[j].names == names,
            None => forall|j: int| i <= j < g.len() ==> (#[trigger] g[j]).names != names,
        },
    decreases g.len() - i,
{
    if i < g.len() && g[i].names != names {
        group_at_is_first(g, names, i + 1);
    }
}

/// The groups met so far, found by their names.
pub struct Groups {
    list: Vec<Group>,
    texts: Names,
    slots: Vec<Vec<usize>>,
}

impl View for Groups {
    type V = Seq<GroupView>;

    closed spec fn view(&self) -> Seq<GroupView> {
        self.list.deep_view()
    }
}

/// No two groups have the same names.
pub open spec fn distinct_groups(g: Seq<GroupView>) -> bool {
    forall|a: int, b: int| 0 <= a < b < g.len() ==> (#[trigger] g[a]).names != (#[trigger] g[b]).names
}

fn same_list(a: &Vec<String>, b: &Vec<String>) -> (r: bool)
    ensures
        r == (a.deep_view() == b.deep_view()),
{
    let ghost va = a.deep_view();
    let ghost vb = b.deep_view();
    if a.len() != b.len() {
        assert(va.len() != vb.len());
        return false;
    }
    let mut i: usize = 0;
    while i < a.len()
        invariant
            i <= a.len(),
            a.len() == b.len(),
            va == a.deep_view(),
            vb == b.deep_view(),
            forall|j: int| 0 <= j < i ==> #[trigger] va[j] == vb[j],
        decreases a.len() - i,
    {
        assert(va[i as int] == a@[i as int]@);
        assert(vb[i as int] == b@[i as int]@);
        if !same(a[i].as_str(), b[i].as_str()) {
            assert(va[i as int] != vb[i as int]);
            return false;
        }
        i = i + 1;
    }
    assert(va =~= vb);
    true
}

impl Groups {
    /// No two groups have the same names, and each is listed under the text of its names.
    pub closed spec fn ok(&self) -> bool {
        &&& self.texts.ok()
        &&& self.slots.len() == self.texts@.len()
        &&& distinct_groups(self@)
        &&& forall|t: int, k: int|
            0 <= t < self.slots.len() && 0 <= k < self.slots@[t].len() ==> #[trigger] self.slots@[t]@[k] < self.list.len()
        &&& forall|g: int| 0 <= g < self@.len() ==> self.listed(#[trigger] self@[g].names, g)
    }

    closed spec fn listed(&self, names: Seq<Chars>, g: int) -> bool {
        exists|t: int|
            0 <= t < self.texts@.len() && self.texts@[t] == joined(names, " "@) && (#[trigger] self.slots@[t])@.contains(
                g as usize,
            )
    }

    /// No groups.
    pub fn new() -> (r: Groups)
        ensures
            r.ok(),
            r@ == Seq::<GroupView>::empty(),
    {
        let r = Groups { list: Vec::new(), texts: Names::new(), slots: Vec::new() };
        assert(r@ =~= Seq::<GroupView>::empty());
        r
    }

    /// The groups.
    pub fn list(&self) -> (r: &Vec<Group>)
        ensures
            r.deep_view() == self@,
    {
        &self.list
    }

    fn find(&self, names: &Vec<String>, text: &str) -> (r: Option<usize>)
        requires
            self.ok(),
            text@ == joined(names.deep_view(), " "@),
        ensures
            match r {
                Some(g) => g < self@.len() && group_at(self@, names.deep_view(), 0) == Some(g as int) && self@[g as int].names
                    == names.deep_view(),
                None => group_at(self@, names.deep_view(), 0) is None,
            },
    {
        let ghost want = names.deep_view();
        proof {
            group_at_is_first(self@, want, 0);
            self.texts.are_distinct();
        }
        match self.texts.find(text) {
            Some(t) => {
                let slot = &self.slots[t];
                let mut k: usize = 0;
                while k < slot.len()
                    invariant
                        k <= slot.len(),
                        self.ok(),
                        t < self.slots.len(),
                        *slot == self.slots@[t as int],
                        want == names.deep_view(),
                        forall|j: int| 0 <= j < k ==> self@[#[trigger] slot@[j] as int].names != want,
                    decreases slot.len() - k,
                {
                    assert(self.slots@[t as int]@[k as int] < self.list.len());
                    let g: usize = slot[k];
                    assert(self@[g as int] == self.list@[g as int].deep_view());
                    if same_list(&self.list[g].names, names) {
                        proof {
                            group_at_is_first(self@, want, 0);
                        }
                        return Some(g);
                    }
                    k = k + 1;
                }
                proof {
                    group_at_is_first(self@, want, 0);
                    if group_at(self@, want, 0) is Some {
                        let g = group_at(self@, want, 0)->0;
                        assert(self.listed(self@[g].names, g));
                        let u = choose|u: int|
                            0 <= u < self.texts@.len() && self.texts@[u] == joined(want, " "@) && (#[trigger] self.slots@[u])@.contains(
                                g as usize,
                            );
                        self.texts.are_distinct();
                        if u < t {
                            assert(self.texts@[u] != self.texts@[t as int]);
                        } else if t < u {
                            assert(self.texts@[t as int] != self.texts@[u]);
                        }
                        let j = choose|j: int| 0 <= j < slot@.len() && slot@[j] == g as usize;
                        assert(self@[slot@[j] as int].names != want);
                        assert(self.list.len() == self@.len());
                    }
                }
                None
            },
            None => {
                proof {
                    if group_at(self@, want, 0) is Some {
                        let g = group_at(self@, want, 0)->0;
                        assert(self.listed(self@[g].names, g));
                    }
                }
                None
            },
        }
    }

    /// One more function in the group of some names.
    pub fn add(&mut self, names: Vec<String>, s: Site)
        requires
            old(self).ok(),
        ensures
            final(self).ok(),
            final(self)@ == with_site(old(self)@, names.deep_view(), s),
    {
        let ghost want = names.deep_view();
        let ghost was = self@;
        let text = join(&names, " ");
        match self.find(&names, text.as_str()) {
            Some(g) => {
                let ghost before = *self;
                let mut sites: Vec<Site> = Vec::new();
                std::mem::swap(&mut sites, &mut self.list[g].sites);
                sites.push(s);
                self.list[g].sites = sites;
                proof {
                    let now = GroupView { names: want, sites: was[g as int].sites.push(s) };
                    assert(before@[g as int] == before.list@[g as int].deep_view());
                    assert(self@ =~= was.update(g as int, now));
                    assert forall|i: int| 0 <= i < self@.len() implies self.listed(#[trigger] self@[i].names, i) by {
                        assert(self@[i].names == was[i].names);
                        assert(before.listed(was[i].names, i));
                        let t = choose|t: int|
                            0 <= t < before.texts@.len() && before.texts@[t] == joined(was[i].names, " "@) && (#[trigger] before.slots@[t])@.contains(
                                i as usize,
                            );
                        assert(self.slots@[t]@.contains(i as usize));
                    }
                }
            },
            None => {
                let ghost before = *self;
                let at: usize = self.list.len();
                let mut sites: Vec<Site> = Vec::new();
                sites.push(s);
                assert(sites@ =~= seq![s]);
                let ghost texts_was = self.texts@;
                let t: usize = self.texts.add(text.as_str());
                if t == self.slots.len() {
                    self.slots.push(Vec::new());
                }
                let ghost slot_was = self.slots@[t as int]@;
                self.slots[t].push(at);
                put(&mut self.list, Group { names, sites });
                proof {
                    group_at_is_first(was, want, 0);
                    assert(self.slots@[t as int]@ == slot_was.push(at));
                    assert(self.slots@[t as int]@.last() == at);
                    assert(self.slots@[t as int]@.contains(at));
                    assert forall|i: int| 0 <= i < self@.len() implies self.listed(#[trigger] self@[i].names, i) by {
                        if i < was.len() {
                            assert(self@[i] == was[i]);
                            assert(before.listed(was[i].names, i));
                            let u = choose|u: int|
                                0 <= u < before.texts@.len() && before.texts@[u] == joined(was[i].names, " "@) && (#[trigger] before.slots@[u])@.contains(
                                    i as usize,
                                );
                            let j = choose|j: int| 0 <= j < before.slots@[u]@.len() && before.slots@[u]@[j] == i as usize;
                            assert(self.slots@[u]@[j] == i as usize);
                            assert(self.slots@[u]@.contains(i as usize));
                            assert(self.texts@[u] == before.texts@[u]);
                        } else {
                            assert(self.texts@[t as int] == joined(want, " "@));
                        }
                    }
                    assert forall|u: int, k: int| 0 <= u < self.slots.len() && 0 <= k < self.slots@[u].len() implies #[trigger] self.slots@[u]@[k]
                        < self.list.len() by {
                        if u < before.slots.len() && k < before.slots@[u].len() {
                            assert(before.slots@[u]@[k] < before.list.len());
                            assert(self.slots@[u]@[k] == before.slots@[u]@[k]);
                        }
                    }
                }
            },
        }
    }
}

// ---------- combinations ----------

/// The keys that order the first `n` parameters by their names.
pub open spec fn name_keys(ps: Seq<ParamView>, n: int) -> Seq<KeyView> {
    Seq::new(n as nat, |i: int| KeyView { a: 0, b: 0, s: ps[i].name, c: 0 })
}

/// The first `n` parameters in the order of their names.
pub open spec fn by_name(ps: Seq<ParamView>, n: int) -> Seq<int> {
    ordered(name_keys(ps, n), n)
}

/// The names, from the `i`th of an order on, that the bits of `mask` pick.
pub open spec fn picked(ps: Seq<ParamView>, order: Seq<int>, mask: nat, i: int) -> Seq<Chars>
    decreases order.len() - i,
{
    if i < 0 || i >= order.len() {
        Seq::empty()
    } else if mask % 2 == 1 {
        seq![ps[order[i]].name] + picked(ps, order, mask / 2, i + 1)
    } else {
        picked(ps, order, mask / 2, i + 1)
    }
}

/// Two to the power of `n`.
pub open spec fn doubled(n: nat) -> nat
    decreases n,
{
    if n == 0 {
        1
    } else {
        2 * doubled((n - 1) as nat)
    }
}

/// The fewest names of a group.
pub open spec fn least(cfg: Clumps) -> usize {
    if cfg.min_group == 0 {
        1
    } else {
        cfg.min_group
    }
}

/// The most names of a group.
pub open spec fn most(cfg: Clumps) -> usize {
    if cfg.max_group < least(cfg) {
        least(cfg)
    } else {
        cfg.max_group
    }
}

/// How many parameters of a function are combined.
pub open spec fn combined(params: nat, cfg: Clumps) -> nat {
    let n = if params < cfg.max_params {
        params
    } else {
        cfg.max_params as nat
    };
    if n < 31 {
        n
    } else {
        31
    }
}

/// Groups with the combinations from `mask` on of a function's names.
pub open spec fn with_masks(
    g: Seq<GroupView>,
    ps: Seq<ParamView>,
    order: Seq<int>,
    s: Site,
    mask: nat,
    end: nat,
    cfg: Clumps,
) -> Seq<GroupView>
    decreases end - mask,
{
    if mask >= end {
        g
    } else {
        let names = picked(ps, order, mask, 0);
        let next = if least(cfg) <= names.len() <= most(cfg) {
            with_site(g, names, s)
        } else {
            g
        };
        with_masks(next, ps, order, s, mask + 1, end, cfg)
    }
}

/// Groups with the combinations of a function's names.
pub open spec fn with_fn(g: Seq<GroupView>, f: FnView, s: Site, cfg: Clumps) -> Seq<GroupView> {
    let n = combined(f.params.len(), cfg);
    if n < least(cfg) {
        g
    } else {
        with_masks(g, f.params, by_name(f.params, n as int), s, 1, doubled(n), cfg)
    }
}

/// Groups with the functions from `k` on of a file.
pub open spec fn with_fns(g: Seq<GroupView>, fns: Seq<FnView>, fi: usize, k: int, cfg: Clumps) -> Seq<GroupView>
    decreases fns.len() - k,
{
    if k < 0 || k >= fns.len() {
        g
    } else {
        with_fns(with_fn(g, fns[k], (fi, k as usize), cfg), fns, fi, k + 1, cfg)
    }
}

/// Groups with the files from `fi` on.
pub open spec fn with_sides(g: Seq<GroupView>, sides: Seq<SideView>, fi: int, cfg: Clumps) -> Seq<GroupView>
    decreases sides.len() - fi,
{
    if fi < 0 || fi >= sides.len() {
        g
    } else {
        with_sides(with_fns(g, sides[fi].functions, fi as usize, 0, cfg), sides, fi + 1, cfg)
    }
}

/// The groups of all combinations of parameter names, in the order they are met.
pub open spec fn all_groups(sides: Seq<SideView>, cfg: Clumps) -> Seq<GroupView> {
    with_sides(Seq::empty(), sides, 0, cfg)
}

fn pick(f: &FnSite, order: &Vec<usize>, mask: u64) -> (out: Vec<String>)
    requires
        forall|k: int| 0 <= k < order.len() ==> #[trigger] order@[k] < f.params.len(),
    ensures
        out.deep_view() == picked(f.deep_view().params, ints(order@), mask as nat, 0),
{
    let ghost ps = f.params.deep_view();
    let ghost ord = ints(order@);
    let ghost whole = picked(ps, ord, mask as nat, 0);
    let mut out: Vec<String> = Vec::new();
    let mut m: u64 = mask;
    let mut i: usize = 0;
    assert(out.deep_view() + whole =~= whole);
    while i < order.len()
        invariant
            i <= order.len(),
            ps == f.params.deep_view(),
            ord == ints(order@),
            forall|k: int| 0 <= k < order.len() ==> #[trigger] order@[k] < f.params.len(),
            whole == out.deep_view() + picked(ps, ord, m as nat, i as int),
        decreases order.len() - i,
    {
        let ghost was = out.deep_view();
        if m % 2 == 1 {
            let at: usize = order[i];
            assert(order@[i as int] < f.params.len());
            assert(ps[at as int] == f.params@[at as int].deep_view());
            put(&mut out, f.params[at].name.as_str().to_owned());
            proof {
                let rest = picked(ps, ord, (m / 2) as nat, i + 1);
                assert(was + (seq![ps[ord[i as int]].name] + rest) =~= out.deep_view() + rest);
            }
        }
        m = m / 2;
        i = i + 1;
    }
    assert(out.deep_view() + Seq::<Chars>::empty() =~= out.deep_view());
    out
}

fn double(n: usize) -> (r: u64)
    requires
        n <= 31,
    ensures
        r == doubled(n as nat),
        r <= 0x8000_0000,
{
    let mut r: u64 = 1;
    let mut i: usize = 0;
    proof {
        reveal_with_fuel(doubled, 33);
        assert(doubled(31) == 0x8000_0000);
    }
    while i < n
        invariant
            i <= n <= 31,
            r == doubled(i as nat),
            doubled(31) == 0x8000_0000,
        decreases n - i,
    {
        proof {
            doubled_grows((i + 1) as nat, 31);
        }
        i = i + 1;
        r = 2 * r;
    }
    proof {
        doubled_grows(n as nat, 31);
    }
    r
}

proof fn doubled_grows(a: nat, b: nat)
    requires
        a <= b,
    ensures
        doubled(a) <= doubled(b),
    decreases b,
{
    if a < b {
        doubled_grows(a, (b - 1) as nat);
    }
}

proof fn with_site_ok(sides: Seq<SideView>, g: Seq<GroupView>, names: Seq<Chars>, s: Site)
    requires
        groups_ok(sides, g),
        site_ok(sides, s),
    ensures
        groups_ok(sides, with_site(g, names, s)),
{
    group_at_is_first(g, names, 0);
}

fn group_fn(groups: &mut Groups, f: &FnSite, s: Site, cfg: &Clumps, sides: Ghost<Seq<SideView>>)
    requires
        old(groups).ok(),
        groups_ok(sides@, old(groups)@),
        site_ok(sides@, s),
    ensures
        final(groups).ok(),
        groups_ok(sides@, final(groups)@),
        final(groups)@ == with_fn(old(groups)@, f.deep_view(), s, *cfg),
{
    let ghost fv = f.deep_view();
    let lo: usize = if cfg.min_group == 0 {
        1
    } else {
        cfg.min_group
    };
    let hi: usize = if cfg.max_group < lo {
        lo
    } else {
        cfg.max_group
    };
    let mut n: usize = f.params.len();
    assert(n == fv.params.len());
    if n >= cfg.max_params {
        n = cfg.max_params;
    }
    if n >= 31 {
        n = 31;
    }
    assert(n == combined(fv.params.len(), *cfg));
    if n < lo {
        return;
    }
    let mut keys: Vec<Key> = Vec::new();
    let mut i: usize = 0;
    let ghost want = name_keys(fv.params, n as int);
    while i < n
        invariant
            i <= n <= f.params.len(),
            i == keys.len(),
            fv == f.deep_view(),
            want == name_keys(fv.params, n as int),
            forall|j: int| 0 <= j < i ==> (#[trigger] keys@[j]).deep_view() == want[j],
        decreases n - i,
    {
        assert(fv.params[i as int] == f.params@[i as int].deep_view());
        keys.push(Key { a: 0, b: 0, s: f.params[i].name.as_str().to_owned(), c: 0 });
        i = i + 1;
    }
    assert(keys.deep_view() =~= want);
    let order = stable_order(&keys);
    let ghost ord = ints(order@);
    let end: u64 = double(n);
    let mut mask: u64 = 1;
    let ghost whole = with_masks(groups@, fv.params, ord, s, 1, end as nat, *cfg);
    while mask < end
        invariant
            end <= 0x8000_0000,
            groups.ok(),
            groups_ok(sides@, groups@),
            site_ok(sides@, s),
            fv == f.deep_view(),
            ord == ints(order@),
            lo == least(*cfg),
            hi == most(*cfg),
            order.len() == n,
            n <= f.params.len(),
            forall|k: int| 0 <= k < order.len() ==> #[trigger] order@[k] < n,
            whole == with_masks(groups@, fv.params, ord, s, mask as nat, end as nat, *cfg),
        decreases end - mask,
    {
        let names = pick(f, &order, mask);
        assert(names.len() == names.deep_view().len());
        if lo <= names.len() && names.len() <= hi {
            proof {
                with_site_ok(sides@, groups@, names.deep_view(), s);
            }
            groups.add(names, s);
        }
        mask = mask + 1;
    }
}

/// The groups of all combinations of parameter names.
pub fn group_all(sides: &Vec<FileSide>, cfg: &Clumps) -> (r: Groups)
    ensures
        r.ok(),
        r@ == all_groups(sides.deep_view(), *cfg),
        groups_ok(sides.deep_view(), r@),
{
    let ghost view = sides.deep_view();
    let mut r = Groups::new();
    let mut fi: usize = 0;
    while fi < sides.len()
        invariant
            fi <= sides.len(),
            view == sides.deep_view(),
            r.ok(),
            groups_ok(view, r@),
            all_groups(view, *cfg) == with_sides(r@, view, fi as int, *cfg),
        decreases sides.len() - fi,
    {
        let side = &sides[fi];
        assert(view[fi as int] == side.deep_view());
        let ghost fns = side.functions.deep_view();
        let ghost whole = with_fns(r@, fns, fi, 0, *cfg);
        let mut k: usize = 0;
        while k < side.functions.len()
            invariant
                k <= side.functions.len(),
                fi < sides.len(),
                view == sides.deep_view(),
                view[fi as int] == side.deep_view(),
                fns == side.functions.deep_view(),
                r.ok(),
                groups_ok(view, r@),
                whole == with_fns(r@, fns, fi, k as int, *cfg),
            decreases side.functions.len() - k,
        {
            assert(fns[k as int] == side.functions@[k as int].deep_view());
            group_fn(&mut r, &side.functions[k], (fi, k), cfg, Ghost(view));
            k = k + 1;
        }
        fi = fi + 1;
    }
    r
}

} // verus!
