//! Clumps: groups with enough members whose slots agree on a type.

use vstd::prelude::*;

use crate::clumps::groups::{groups_ok, site_ok, sites_ok, GroupView, Group, Site};
use crate::clumps::side::{FileSide, FnView, Param, ParamView, SideView};
use crate::config::Clumps;
use crate::order::{ordered, stable_order, Key, KeyView};
use crate::text::{
    align_right, chars, copy_list, decimal, digits, join, joined, list_has, put, right_aligned, same, Chars,
};
use crate::tree::ints;
use crate::units::{bare, bare_of};

verus! {

/// A function of a clump.
pub struct Member {
    pub file: String,
    pub name: String,
    pub line: usize,
}

/// A [`Member`] by its contents.
pub struct MemberView {
    pub file: Chars,
    pub name: Chars,
    pub line: usize,
}

impl DeepView for Member {
    type V = MemberView;

    open spec fn deep_view(&self) -> MemberView {
        MemberView { file: self.file@, name: self.name@, line: self.line }
    }
}

/// A group of parameters that recurs.
pub struct Clump {
    /// Slot names in the first member's declared order.
    pub params: Vec<String>,
    /// Per slot, the type that every annotated member agrees on; none when none is annotated or they
    /// differ.
    pub types: Vec<Option<String>>,
    /// Varying slots with their distinct types, first seen first.
    pub variants: Vec<(String, Vec<String>)>,
    /// Members in file, line order.
    pub functions: Vec<Member>,
    pub files: usize,
    /// The slots that some members leave unused, with how many do.
    pub unused_slots: Vec<(String, usize)>,
    /// The one function every member's name is referenced from, when there is exactly one.
    pub single_caller: Option<String>,
    /// The section line.
    pub line: String,
}

/// A [`Clump`] by its contents.
pub struct ClumpView {
    pub params: Seq<Chars>,
    pub types: Seq<Option<Chars>>,
    pub variants: Seq<(Chars, Seq<Chars>)>,
    pub functions: Seq<MemberView>,
    pub files: usize,
    pub unused_slots: Seq<(Chars, usize)>,
    pub single_caller: Option<Chars>,
    pub line: Chars,
}

impl DeepView for Clump {
    type V = ClumpView;

    open spec fn deep_view(&self) -> ClumpView {
        ClumpView {
            params: self.params.deep_view(),
            types: self.types.deep_view(),
            variants: self.variants.deep_view(),
            functions: self.functions.deep_view(),
            files: self.files,
            unused_slots: self.unused_slots.deep_view(),
            single_caller: self.single_caller.deep_view(),
            line: self.line@,
        }
    }
}

// ---------- slots ----------

/// The function of a site.
pub open spec fn fn_at(sides: Seq<SideView>, s: Site) -> FnView {
    sides[s.0 as int].functions[s.1 as int]
}

/// The first parameter, from `i` on, of a name.
pub open spec fn param_from(ps: Seq<ParamView>, name: Chars, i: int) -> Option<ParamView>
    decreases ps.len() - i,
{
    if i < 0 || i >= ps.len() {
        None
    } else if ps[i].name == name {
        Some(ps[i])
    } else {
        param_from(ps, name, i + 1)
    }
}

/// A function's parameter of a name.
pub open spec fn slot(sides: Seq<SideView>, s: Site, name: Chars) -> Option<ParamView> {
    param_from(fn_at(sides, s).params, name, 0)
}

/// The distinct types that the first `n` functions declare for a slot, first seen first.
pub open spec fn slot_types(sides: Seq<SideView>, name: Chars, sites: Seq<Site>, n: int) -> Seq<Chars>
    decreases n,
{
    if n <= 0 {
        Seq::empty()
    } else {
        let was = slot_types(sides, name, sites, n - 1);
        match slot(sides, sites[n - 1], name) {
            Some(p) => match p.ty {
                Some(t) => if was.contains(t) {
                    was
                } else {
                    was.push(t)
                },
                None => was,
            },
            None => was,
        }
    }
}

/// The distinct types that functions declare for a slot.
pub open spec fn types_of(sides: Seq<SideView>, name: Chars, sites: Seq<Site>) -> Seq<Chars> {
    slot_types(sides, name, sites, sites.len() as int)
}

/// How many of the first `n` functions leave a slot unused.
pub open spec fn unused_in(sides: Seq<SideView>, name: Chars, sites: Seq<Site>, n: int) -> nat
    decreases n,
{
    if n <= 0 {
        0
    } else {
        unused_in(sides, name, sites, n - 1) + (match slot(sides, sites[n - 1], name) {
            Some(p) => if p.unused {
                1nat
            } else {
                0nat
            },
            None => 0nat,
        })
    }
}

/// A file of the first `n` sites.
pub open spec fn file_met(sites: Seq<Site>, fi: usize, n: int) -> bool {
    exists|j: int| 0 <= j < n && (#[trigger] sites[j]).0 == fi
}

/// How many files the first `n` sites lie in.
pub open spec fn files_met(sites: Seq<Site>, n: int) -> nat
    decreases n,
{
    if n <= 0 {
        0
    } else {
        files_met(sites, n - 1) + (if file_met(sites, sites[n - 1].0, n - 1) {
            0nat
        } else {
            1nat
        })
    }
}

/// How many of the first `n` names have one type that every annotated function agrees on.
pub open spec fn agreeing(sides: Seq<SideView>, names: Seq<Chars>, sites: Seq<Site>, n: int) -> nat
    decreases n,
{
    if n <= 0 {
        0
    } else {
        agreeing(sides, names, sites, n - 1) + (if types_of(sides, names[n - 1], sites).len() == 1 {
            1nat
        } else {
            0nat
        })
    }
}

/// Some function annotates some slot.
pub open spec fn annotated(sides: Seq<SideView>, names: Seq<Chars>, sites: Seq<Site>) -> bool {
    exists|i: int| 0 <= i < names.len() && types_of(sides, #[trigger] names[i], sites).len() > 0
}

/// The characters of the first `n` names together.
pub open spec fn letters(names: Seq<Chars>, n: int) -> nat
    decreases n,
{
    if n <= 0 {
        0
    } else {
        letters(names, n - 1) + names[n - 1].len()
    }
}

/// Enough functions, or files, or both, as the settings ask.
pub open spec fn enough(functions: nat, files: nat, cfg: Clumps) -> bool {
    if cfg.report_if_either {
        functions >= cfg.min_functions || files >= cfg.min_files
    } else {
        functions >= cfg.min_functions && files >= cfg.min_files
    }
}

/// A group is a clump: enough functions or files, and enough slots that agree on a type; a group that
/// nothing annotates needs one function more and names of some length.
pub open spec fn passes(sides: Seq<SideView>, g: GroupView, cfg: Clumps) -> bool {
    let n = g.sites.len() as int;
    enough(g.sites.len(), files_met(g.sites, n), cfg) && (agreeing(sides, g.names, g.sites, g.names.len() as int)
        >= cfg.min_typed_slots || (!annotated(sides, g.names, g.sites) && g.sites.len() > cfg.min_functions && letters(
        g.names,
        g.names.len() as int,
    ) >= cfg.min_name_len))
}

fn find_param<'a>(ps: &'a Vec<Param>, name: &str) -> (r: Option<&'a Param>)
    ensures
        (match r {
            Some(p) => Some(p.deep_view()),
            None => None,
        }) == param_from(ps.deep_view(), name@, 0),
{
    let ghost view = ps.deep_view();
    let mut i: usize = 0;
    while i < ps.len()
        invariant
            i <= ps.len(),
            view == ps.deep_view(),
            param_from(view, name@, 0) == param_from(view, name@, i as int),
        decreases ps.len() - i,
    {
        assert(view[i as int] == ps@[i as int].deep_view());
        if same(ps[i].name.as_str(), name) {
            return Some(&ps[i]);
        }
        i = i + 1;
    }
    None
}

fn find_slot<'a>(sides: &'a Vec<FileSide>, s: Site, name: &str) -> (r: Option<&'a Param>)
    requires
        site_ok(sides.deep_view(), s),
    ensures
        (match r {
            Some(p) => Some(p.deep_view()),
            None => None,
        }) == slot(sides.deep_view(), s, name@),
{
    assert(sides.deep_view()[s.0 as int] == sides@[s.0 as int].deep_view());
    let side = &sides[s.0];
    assert(side.functions.deep_view()[s.1 as int] == side.functions@[s.1 as int].deep_view());
    find_param(&side.functions[s.1].params, name)
}

fn find_types(sides: &Vec<FileSide>, name: &str, sites: &Vec<Site>) -> (out: Vec<String>)
    requires
        sites_ok(sides.deep_view(), sites@),
    ensures
        out.deep_view() == types_of(sides.deep_view(), name@, sites@),
{
    let ghost view = sides.deep_view();
    let mut out: Vec<String> = Vec::new();
    let mut n: usize = 0;
    assert(out.deep_view() =~= Seq::<Chars>::empty());
    while n < sites.len()
        invariant
            n <= sites.len(),
            view == sides.deep_view(),
            sites_ok(view, sites@),
            out.deep_view() == slot_types(view, name@, sites@, n as int),
        decreases sites.len() - n,
    {
        assert(site_ok(view, sites@[n as int]));
        if let Some(p) = find_slot(sides, sites[n], name) {
            if let Some(t) = &p.ty {
                if !list_has(&out, t.as_str()) {
                    put(&mut out, t.as_str().to_owned());
                }
            }
        }
        n = n + 1;
    }
    out
}

fn count_unused(sides: &Vec<FileSide>, name: &str, sites: &Vec<Site>) -> (k: usize)
    requires
        sites_ok(sides.deep_view(), sites@),
    ensures
        k == unused_in(sides.deep_view(), name@, sites@, sites.len() as int),
{
    let ghost view = sides.deep_view();
    let mut k: usize = 0;
    let mut n: usize = 0;
    while n < sites.len()
        invariant
            n <= sites.len(),
            view == sides.deep_view(),
            sites_ok(view, sites@),
            k <= n,
            k == unused_in(view, name@, sites@, n as int),
        decreases sites.len() - n,
    {
        assert(site_ok(view, sites@[n as int]));
        if let Some(p) = find_slot(sides, sites[n], name) {
            if p.unused {
                k = k + 1;
            }
        }
        n = n + 1;
    }
    k
}

fn count_files(sites: &Vec<Site>) -> (k: usize)
    ensures
        k == files_met(sites@, sites.len() as int),
        k <= sites.len(),
{
    let mut k: usize = 0;
    let mut n: usize = 0;
    while n < sites.len()
        invariant
            n <= sites.len(),
            k <= n,
            k == files_met(sites@, n as int),
        decreases sites.len() - n,
    {
        let mut met = false;
        let mut j: usize = 0;
        while j < n
            invariant
                j <= n,
                n < sites.len(),
                met == file_met(sites@, sites@[n as int].0, j as int),
            decreases n - j,
        {
            if sites[j].0 == sites[n].0 {
                assert(sites@[j as int].0 == sites@[n as int].0);
                met = true;
            } else {
                assert(file_met(sites@, sites@[n as int].0, j + 1) ==> file_met(sites@, sites@[n as int].0, j as int));
            }
            j = j + 1;
        }
        if !met {
            k = k + 1;
        }
        n = n + 1;
    }
    k
}

/// Is a group a clump?
pub fn does_pass(sides: &Vec<FileSide>, g: &Group, cfg: &Clumps) -> (r: bool)
    requires
        sites_ok(sides.deep_view(), g.sites@),
    ensures
        r == passes(sides.deep_view(), g.deep_view(), *cfg),
{
    let ghost view = sides.deep_view();
    let ghost names = g.names.deep_view();
    let files: usize = count_files(&g.sites);
    let functions: usize = g.sites.len();
    let many = if cfg.report_if_either {
        functions >= cfg.min_functions || files >= cfg.min_files
    } else {
        functions >= cfg.min_functions && files >= cfg.min_files
    };
    if !many {
        return false;
    }
    let mut agree: usize = 0;
    let mut typed = false;
    let mut length: usize = 0;
    let mut n: usize = 0;
    while n < g.names.len()
        invariant
            n <= g.names.len(),
            view == sides.deep_view(),
            names == g.names.deep_view(),
            sites_ok(view, g.sites@),
            agree <= n,
            agree == agreeing(view, names, g.sites@, n as int),
            typed == (exists|i: int| 0 <= i < n && types_of(view, #[trigger] names[i], g.sites@).len() > 0),
            length == crate::text::capped_size(letters(names, n as int)),
        decreases g.names.len() - n,
    {
        assert(names[n as int] == g.names@[n as int]@);
        let name = g.names[n].as_str();
        let ts = find_types(sides, name, &g.sites);
        assert(ts.len() == ts.deep_view().len());
        if ts.len() == 1 {
            agree = agree + 1;
        }
        if ts.len() > 0 {
            assert(types_of(view, names[n as int], g.sites@).len() > 0);
            typed = true;
        }
        let c = chars(name);
        length = length.saturating_add(c.len());
        n = n + 1;
    }
    if agree >= cfg.min_typed_slots {
        return true;
    }
    !typed && functions > cfg.min_functions && length >= cfg.min_name_len
}

// ---------- member sets ----------

/// The functions that share names, with the union of the names of their groups.
pub struct Merged {
    pub sites: Vec<Site>,
    pub names: Vec<String>,
}

/// A [`Merged`] by its contents.
pub struct MergedView {
    pub sites: Seq<Site>,
    pub names: Seq<Chars>,
}

impl DeepView for Merged {
    type V = MergedView;

    open spec fn deep_view(&self) -> MergedView {
        MergedView { sites: self.sites@, names: self.names.deep_view() }
    }
}

/// Sites, which come in ascending order, each once.
pub open spec fn once(s: Seq<Site>) -> Seq<Site>
    decreases s.len(),
{
    if s.len() == 0 {
        Seq::empty()
    } else {
        let was = once(s.drop_last());
        if was.len() > 0 && was.last() == s.last() {
            was
        } else {
            was.push(s.last())
        }
    }
}

/// The first member set, from `i` on, of some sites.
pub open spec fn merged_at(m: Seq<MergedView>, sites: Seq<Site>, i: int) -> Option<int>
    decreases m.len() - i,
{
    if i < 0 || i >= m.len() {
        None
    } else if m[i].sites == sites {
        Some(i)
    } else {
        merged_at(m, sites, i + 1)
    }
}

/// Member sets with one more group: those with one member set collapse into the union of their names.
pub open spec fn with_group(m: Seq<MergedView>, g: GroupView) -> Seq<MergedView> {
    let key = once(g.sites);
    match merged_at(m, key, 0) {
        Some(i) => m.update(i, MergedView { sites: key, names: m[i].names + g.names }),
        None => m.push(MergedView { sites: key, names: g.names }),
    }
}

/// The member sets of the first `n` groups that are clumps.
pub open spec fn merged_of(sides: Seq<SideView>, g: Seq<GroupView>, cfg: Clumps, n: int) -> Seq<MergedView>
    decreases n,
{
    if n <= 0 {
        Seq::empty()
    } else {
        let was = merged_of(sides, g, cfg, n - 1);
        if passes(sides, g[n - 1], cfg) {
            with_group(was, g[n - 1])
        } else {
            was
        }
    }
}

/// All member sets are of functions of the files.
pub open spec fn all_merged_ok(sides: Seq<SideView>, m: Seq<MergedView>) -> bool {
    forall|i: int| 0 <= i < m.len() ==> sites_ok(sides, (#[trigger] m[i]).sites) && m[i].sites.len() > 0
}

fn each_once(s: &Vec<Site>, sides: Ghost<Seq<SideView>>) -> (out: Vec<Site>)
    requires
        sites_ok(sides@, s@),
    ensures
        out@ == once(s@),
        sites_ok(sides@, out@),
        s.len() > 0 ==> out.len() > 0,
{
    let mut out: Vec<Site> = Vec::new();
    let mut i: usize = 0;
    assert(s@.take(0) =~= Seq::<Site>::empty());
    assert(out@ =~= Seq::<Site>::empty());
    while i < s.len()
        invariant
            i <= s.len(),
            sites_ok(sides@, s@),
            sites_ok(sides@, out@),
            out@ == once(s@.take(i as int)),
            i > 0 ==> out.len() > 0,
        decreases s.len() - i,
    {
        assert(s@.take(i + 1).drop_last() =~= s@.take(i as int));
        assert(site_ok(sides@, s@[i as int]));
        let x: Site = s[i];
        let n: usize = out.len();
        if n > 0 && out[n - 1].0 == x.0 && out[n - 1].1 == x.1 {
            assert(out@.last() == x);
        } else {
            out.push(x);
        }
        i = i + 1;
    }
    assert(s@.take(s@.len() as int) =~= s@);
    out
}

fn same_sites(a: &Vec<Site>, b: &Vec<Site>) -> (r: bool)
    ensures
        r == (a@ == b@),
{
    if a.len() != b.len() {
        return false;
    }
    let mut i: usize = 0;
    while i < a.len()
        invariant
            i <= a.len(),
            a.len() == b.len(),
            forall|j: int| 0 <= j < i ==> #[trigger] a@[j] == b@[j],
        decreases a.len() - i,
    {
        if a[i].0 != b[i].0 || a[i].1 != b[i].1 {
            assert(a@[i as int] != b@[i as int]);
            return false;
        }
        i = i + 1;
    }
    assert(a@ =~= b@);
    true
}

fn find_merged(m: &Vec<Merged>, sites: &Vec<Site>) -> (r: Option<usize>)
    ensures
        (match r {
            Some(i) => Some(i as int),
            None => None,
        }) == merged_at(m.deep_view(), sites@, 0),
        r matches Some(i) ==> i < m.len() && m@[i as int].sites@ == sites@,
{
    let ghost view = m.deep_view();
    let mut i: usize = 0;
    while i < m.len()
        invariant
            i <= m.len(),
            view == m.deep_view(),
            merged_at(view, sites@, 0) == merged_at(view, sites@, i as int),
        decreases m.len() - i,
    {
        assert(view[i as int] == m@[i as int].deep_view());
        if same_sites(&m[i].sites, sites) {
            return Some(i);
        }
        i = i + 1;
    }
    None
}

/// The member sets of the groups that are clumps.
pub fn merge(sides: &Vec<FileSide>, g: &Vec<Group>, cfg: &Clumps) -> (out: Vec<Merged>)
    requires
        groups_ok(sides.deep_view(), g.deep_view()),
    ensures
        out.deep_view() == merged_of(sides.deep_view(), g.deep_view(), *cfg, g.len() as int),
        all_merged_ok(sides.deep_view(), out.deep_view()),
{
    let ghost view = sides.deep_view();
    let ghost gv = g.deep_view();
    let mut out: Vec<Merged> = Vec::new();
    let mut n: usize = 0;
    assert(out.deep_view() =~= Seq::<MergedView>::empty());
    while n < g.len()
        invariant
            n <= g.len(),
            view == sides.deep_view(),
            gv == g.deep_view(),
            groups_ok(view, gv),
            out.deep_view() == merged_of(view, gv, *cfg, n as int),
            all_merged_ok(view, out.deep_view()),
        decreases g.len() - n,
    {
        assert(gv[n as int] == g@[n as int].deep_view());
        assert(sites_ok(view, gv[n as int].sites));
        if does_pass(sides, &g[n], cfg) {
            let key = each_once(&g[n].sites, Ghost(view));
            let ghost was = out.deep_view();
            match find_merged(&out, &key) {
                Some(i) => {
                    assert(was[i as int] == out@[i as int].deep_view());
                    let mut names = copy_list(&out[i].names);
                    crate::text::extend(&mut names, &g[n].names);
                    let x = Merged { sites: key, names };
                    let ghost xv = x.deep_view();
                    out.set(i, x);
                    assert(out.deep_view() =~= was.update(i as int, xv));
                },
                None => {
                    put(&mut out, Merged { sites: key, names: copy_list(&g[n].names) });
                },
            }
        }
        n = n + 1;
    }
    out
}

// ---------- clumps ----------

/// The keys that order sites by file and line.
pub open spec fn site_keys(sides: Seq<SideView>, s: Seq<Site>) -> Seq<KeyView> {
    Seq::new(s.len(), |i: int| KeyView { a: 0, b: 0, s: sides[s[i].0 as int].path, c: fn_at(sides, s[i]).line })
}

/// Sites in file, line order.
pub open spec fn in_order(sides: Seq<SideView>, s: Seq<Site>) -> Seq<Site> {
    Seq::new(s.len(), |i: int| s[ordered(site_keys(sides, s), s.len() as int)[i]])
}

/// The names of the first `n` parameters that are among `names`.
pub open spec fn shared(ps: Seq<ParamView>, names: Seq<Chars>, n: int) -> Seq<Chars>
    decreases n,
{
    if n <= 0 {
        Seq::empty()
    } else {
        let was = shared(ps, names, n - 1);
        if names.contains(ps[n - 1].name) {
            was.push(ps[n - 1].name)
        } else {
            was
        }
    }
}

/// The members of a clump.
pub open spec fn members_of(sides: Seq<SideView>, s: Seq<Site>) -> Seq<MemberView> {
    Seq::new(
        s.len(),
        |i: int| MemberView { file: sides[s[i].0 as int].path, name: fn_at(sides, s[i]).name, line: fn_at(sides, s[i]).line },
    )
}

/// The one type of a slot.
pub open spec fn the_type(ts: Seq<Chars>) -> Option<Chars> {
    if ts.len() == 1 {
        Some(ts[0])
    } else {
        None
    }
}

/// The types of slots.
pub open spec fn slot_list(sides: Seq<SideView>, params: Seq<Chars>, s: Seq<Site>) -> Seq<Option<Chars>> {
    Seq::new(params.len(), |i: int| the_type(types_of(sides, params[i], s)))
}

/// A name is listed.
pub open spec fn listed<T>(s: Seq<(Chars, T)>, name: Chars) -> bool {
    exists|i: int| 0 <= i < s.len() && (#[trigger] s[i]).0 == name
}

/// The varying ones of the first `n` slots.
pub open spec fn varying(sides: Seq<SideView>, params: Seq<Chars>, s: Seq<Site>, n: int) -> Seq<(Chars, Seq<Chars>)>
    decreases n,
{
    if n <= 0 {
        Seq::empty()
    } else {
        let was = varying(sides, params, s, n - 1);
        let ts = types_of(sides, params[n - 1], s);
        if ts.len() > 1 && !listed(was, params[n - 1]) {
            was.push((params[n - 1], ts))
        } else {
            was
        }
    }
}

/// The ones of the first `n` slots that some function leaves unused, with how many do.
pub open spec fn left_unused(sides: Seq<SideView>, params: Seq<Chars>, s: Seq<Site>, n: int) -> Seq<(Chars, usize)>
    decreases n,
{
    if n <= 0 {
        Seq::empty()
    } else {
        let was = left_unused(sides, params, s, n - 1);
        let k = unused_in(sides, params[n - 1], s, s.len() as int);
        if k > 0 && !listed(was, params[n - 1]) {
            was.push((params[n - 1], k as usize))
        } else {
            was
        }
    }
}

/// Some of the first `n` files references a name outside the analysed functions.
pub open spec fn named_outside(sides: Seq<SideView>, name: Chars) -> bool {
    exists|i: int| 0 <= i < sides.len() && (#[trigger] sides[i]).other_refs.contains(name)
}

/// A function calls another by name: it is not that function, has another name, and references it.
pub open spec fn calls(sides: Seq<SideView>, c: Site, s: Site, name: Chars) -> bool {
    c != s && bare(fn_at(sides, c).name) != name && fn_at(sides, c).refs.contains(name)
}

/// The callers of a function among the functions from `k` on of file `fi`, after those met before.
pub open spec fn callers_in(sides: Seq<SideView>, fi: int, k: int, s: Site, name: Chars, acc: Seq<Site>) -> Seq<Site>
    decreases sides[fi].functions.len() - k,
{
    if k < 0 || k >= sides[fi].functions.len() {
        acc
    } else {
        let c = (fi as usize, k as usize);
        callers_in(
            sides,
            fi,
            k + 1,
            s,
            name,
            if calls(sides, c, s, name) {
                acc.push(c)
            } else {
                acc
            },
        )
    }
}

/// The callers of a function in the files from `fi` on, after those met before.
pub open spec fn callers_from(sides: Seq<SideView>, fi: int, s: Site, name: Chars, acc: Seq<Site>) -> Seq<Site>
    decreases sides.len() - fi,
{
    if fi < 0 || fi >= sides.len() {
        acc
    } else {
        callers_from(sides, fi + 1, s, name, callers_in(sides, fi, 0, s, name, acc))
    }
}

/// The one caller of the functions from `i` on, and of those before it: `caller`, where there is one.
pub open spec fn caller_from(sides: Seq<SideView>, s: Seq<Site>, i: int, caller: Option<Site>) -> Option<Site>
    decreases s.len() - i,
{
    if i < 0 || i >= s.len() {
        caller
    } else {
        let me = bare(fn_at(sides, s[i]).name);
        let callers = callers_from(sides, 0, s[i], me, Seq::empty());
        if named_outside(sides, me) || callers.len() != 1 || (match caller {
            Some(c) => c != callers[0],
            None => false,
        }) {
            None
        } else {
            caller_from(sides, s, i + 1, Some(callers[0]))
        }
    }
}

/// The name of the one function that every function is referenced from.
pub open spec fn single_caller(sides: Seq<SideView>, s: Seq<Site>) -> Option<Chars> {
    match caller_from(sides, s, 0, None) {
        Some(c) => Some(bare(fn_at(sides, c).name)),
        None => None,
    }
}

fn sort_sites(sides: &Vec<FileSide>, s: &Vec<Site>) -> (out: Vec<Site>)
    requires
        sites_ok(sides.deep_view(), s@),
    ensures
        out@ == in_order(sides.deep_view(), s@),
        sites_ok(sides.deep_view(), out@),
        out.len() == s.len(),
{
    let ghost view = sides.deep_view();
    let ghost want = site_keys(view, s@);
    let mut keys: Vec<Key> = Vec::new();
    let mut i: usize = 0;
    while i < s.len()
        invariant
            i <= s.len(),
            i == keys.len(),
            view == sides.deep_view(),
            sites_ok(view, s@),
            want == site_keys(view, s@),
            forall|j: int| 0 <= j < i ==> (#[trigger] keys@[j]).deep_view() == want[j],
        decreases s.len() - i,
    {
        let x: Site = s[i];
        assert(site_ok(view, s@[i as int]));
        assert(view[x.0 as int] == sides@[x.0 as int].deep_view());
        let side = &sides[x.0];
        assert(side.functions.deep_view()[x.1 as int] == side.functions@[x.1 as int].deep_view());
        keys.push(Key { a: 0, b: 0, s: side.path.as_str().to_owned(), c: side.functions[x.1].line });
        i = i + 1;
    }
    assert(keys.deep_view() =~= want);
    let order = stable_order(&keys);
    let mut out: Vec<Site> = Vec::new();
    let mut i: usize = 0;
    while i < order.len()
        invariant
            i <= order.len(),
            i == out.len(),
            order.len() == s.len(),
            sites_ok(view, s@),
            sites_ok(view, out@),
            ints(order@) == ordered(want, s.len() as int),
            forall|k: int| 0 <= k < order.len() ==> #[trigger] order@[k] < s.len(),
            forall|j: int| 0 <= j < i ==> #[trigger] out@[j] == s@[ordered(want, s.len() as int)[j]],
        decreases order.len() - i,
    {
        assert(order@[i as int] < s.len());
        assert(ints(order@)[i as int] == order@[i as int]);
        assert(site_ok(view, s@[order@[i as int] as int]));
        out.push(s[order[i]]);
        i = i + 1;
    }
    assert(out@ =~= in_order(view, s@));
    out
}

fn find_shared(ps: &Vec<Param>, names: &Vec<String>) -> (out: Vec<String>)
    ensures
        out.deep_view() == shared(ps.deep_view(), names.deep_view(), ps.len() as int),
{
    let ghost view = ps.deep_view();
    let mut out: Vec<String> = Vec::new();
    let mut n: usize = 0;
    assert(out.deep_view() =~= Seq::<Chars>::empty());
    while n < ps.len()
        invariant
            n <= ps.len(),
            view == ps.deep_view(),
            out.deep_view() == shared(view, names.deep_view(), n as int),
        decreases ps.len() - n,
    {
        assert(view[n as int] == ps@[n as int].deep_view());
        if list_has(names, ps[n].name.as_str()) {
            put(&mut out, ps[n].name.as_str().to_owned());
        }
        n = n + 1;
    }
    out
}

fn make_members(sides: &Vec<FileSide>, s: &Vec<Site>) -> (out: Vec<Member>)
    requires
        sites_ok(sides.deep_view(), s@),
    ensures
        out.deep_view() == members_of(sides.deep_view(), s@),
{
    let ghost view = sides.deep_view();
    let ghost want = members_of(view, s@);
    let mut out: Vec<Member> = Vec::new();
    let mut i: usize = 0;
    while i < s.len()
        invariant
            i <= s.len(),
            i == out.len(),
            view == sides.deep_view(),
            sites_ok(view, s@),
            want == members_of(view, s@),
            forall|j: int| 0 <= j < i ==> (#[trigger] out@[j]).deep_view() == want[j],
        decreases s.len() - i,
    {
        let x: Site = s[i];
        assert(site_ok(view, s@[i as int]));
        assert(view[x.0 as int] == sides@[x.0 as int].deep_view());
        let side = &sides[x.0];
        assert(side.functions.deep_view()[x.1 as int] == side.functions@[x.1 as int].deep_view());
        let f = &side.functions[x.1];
        out.push(Member { file: side.path.as_str().to_owned(), name: f.name.as_str().to_owned(), line: f.line });
        i = i + 1;
    }
    assert(out.deep_view() =~= want);
    out
}

fn is_named_outside(sides: &Vec<FileSide>, name: &str) -> (r: bool)
    ensures
        r == named_outside(sides.deep_view(), name@),
{
    let ghost view = sides.deep_view();
    let mut i: usize = 0;
    while i < sides.len()
        invariant
            i <= sides.len(),
            view == sides.deep_view(),
            forall|j: int| 0 <= j < i ==> !(#[trigger] view[j]).other_refs.contains(name@),
        decreases sides.len() - i,
    {
        assert(view[i as int] == sides@[i as int].deep_view());
        if list_has(&sides[i].other_refs, name) {
            assert(view[i as int].other_refs.contains(name@));
            return true;
        }
        i = i + 1;
    }
    false
}

fn find_callers(sides: &Vec<FileSide>, s: Site, name: &str) -> (out: Vec<Site>)
    ensures
        out@ == callers_from(sides.deep_view(), 0, s, name@, Seq::empty()),
        sites_ok(sides.deep_view(), out@),
{
    let ghost view = sides.deep_view();
    let mut out: Vec<Site> = Vec::new();
    let mut fi: usize = 0;
    assert(out@ =~= Seq::<Site>::empty());
    let ghost whole = callers_from(view, 0, s, name@, Seq::empty());
    while fi < sides.len()
        invariant
            fi <= sides.len(),
            view == sides.deep_view(),
            sites_ok(view, out@),
            whole == callers_from(view, fi as int, s, name@, out@),
        decreases sides.len() - fi,
    {
        let side = &sides[fi];
        assert(view[fi as int] == side.deep_view());
        let ghost fns = side.functions.deep_view();
        let ghost here = callers_in(view, fi as int, 0, s, name@, out@);
        let mut k: usize = 0;
        while k < side.functions.len()
            invariant
                k <= side.functions.len(),
                fi < view.len(),
                view[fi as int] == side.deep_view(),
                fns == side.functions.deep_view(),
                sites_ok(view, out@),
                here == callers_in(view, fi as int, k as int, s, name@, out@),
            decreases side.functions.len() - k,
        {
            let f = &side.functions[k];
            assert(fns[k as int] == f.deep_view());
            if (fi != s.0 || k != s.1) && !same(bare_of(f.name.as_str()).as_str(), name) && list_has(&f.refs, name) {
                assert(calls(view, (fi, k), s, name@));
                out.push((fi, k));
            } else {
                assert(!calls(view, (fi, k), s, name@));
            }
            k = k + 1;
        }
        fi = fi + 1;
    }
    out
}

fn find_caller(sides: &Vec<FileSide>, s: &Vec<Site>) -> (r: Option<String>)
    requires
        sites_ok(sides.deep_view(), s@),
    ensures
        r.deep_view() == single_caller(sides.deep_view(), s@),
{
    let ghost view = sides.deep_view();
    let mut caller: Option<Site> = None;
    let mut i: usize = 0;
    while i < s.len()
        invariant
            i <= s.len(),
            view == sides.deep_view(),
            sites_ok(view, s@),
            caller matches Some(c) ==> site_ok(view, c),
            caller_from(view, s@, 0, None) == caller_from(view, s@, i as int, caller),
        decreases s.len() - i,
    {
        let x: Site = s[i];
        assert(site_ok(view, s@[i as int]));
        assert(view[x.0 as int] == sides@[x.0 as int].deep_view());
        let side = &sides[x.0];
        assert(side.functions.deep_view()[x.1 as int] == side.functions@[x.1 as int].deep_view());
        let me = bare_of(side.functions[x.1].name.as_str());
        if is_named_outside(sides, me.as_str()) {
            return None;
        }
        let callers = find_callers(sides, x, me.as_str());
        if callers.len() != 1 {
            return None;
        }
        let c: Site = callers[0];
        assert(site_ok(view, callers@[0]));
        if let Some(d) = caller {
            if d.0 != c.0 || d.1 != c.1 {
                assert(d != c);
                return None;
            }
            assert(d == c);
        }
        caller = Some(c);
        i = i + 1;
    }
    match caller {
        Some(c) => {
            assert(view[c.0 as int] == sides@[c.0 as int].deep_view());
            let side = &sides[c.0];
            assert(side.functions.deep_view()[c.1 as int] == side.functions@[c.1 as int].deep_view());
            Some(bare_of(side.functions[c.1].name.as_str()))
        },
        None => None,
    }
}

// ---------- texts ----------

/// One site of a list: the path is left out when it repeats the one before.
pub open spec fn site_text(m: MemberView, prev: Chars) -> Chars {
    if m.file == prev {
        m.name + " :"@ + digits(m.line as nat)
    } else {
        m.name + " "@ + m.file + ":"@ + digits(m.line as nat)
    }
}

/// The texts of the first `n` members.
pub open spec fn site_parts(ms: Seq<MemberView>, n: int) -> Seq<Chars>
    decreases n,
{
    if n <= 0 {
        Seq::empty()
    } else {
        let prev = if n >= 2 {
            ms[n - 2].file
        } else {
            Seq::empty()
        };
        site_parts(ms, n - 1).push(site_text(ms[n - 1], prev))
    }
}

/// `plan_repair src/cmd/repair.rs:79, plan_start src/cmd/flow.rs:300, plan_ship :853`: at most so many
/// sites, then `+N more`.
pub open spec fn sites_line(ms: Seq<MemberView>, most: usize) -> Chars {
    let n = if ms.len() < most {
        ms.len()
    } else {
        most as nat
    };
    let parts = site_parts(ms, n as int);
    joined(
        if ms.len() > most {
            parts.push("+"@ + digits((ms.len() - most) as nat) + " more"@)
        } else {
            parts
        },
        ", "@,
    )
}

/// The members of a clump as a list of sites.
pub fn sites_text(ms: &Vec<Member>, most: usize) -> (r: String)
    ensures
        r@ == sites_line(ms.deep_view(), most),
{
    let ghost view = ms.deep_view();
    let n: usize = if ms.len() < most {
        ms.len()
    } else {
        most
    };
    let mut parts: Vec<String> = Vec::new();
    let mut k: usize = 0;
    assert(parts.deep_view() =~= Seq::<Chars>::empty());
    while k < n
        invariant
            k <= n <= ms.len(),
            view == ms.deep_view(),
            parts.deep_view() == site_parts(view, k as int),
        decreases n - k,
    {
        let m = &ms[k];
        assert(view[k as int] == m.deep_view());
        let prev = if k > 0 {
            assert(view[k - 1] == ms@[k - 1].deep_view());
            same(m.file.as_str(), ms[k - 1].file.as_str())
        } else {
            let e = m.file.as_str().is_empty();
            assert(e == (m.file@ =~= Seq::<char>::empty()));
            e
        };
        let mut s = m.name.as_str().to_owned();
        if prev {
            s.append(" :");
        } else {
            s.append(" ");
            s.append(m.file.as_str());
            s.append(":");
        }
        s.append(decimal(m.line).as_str());
        put(&mut parts, s);
        k = k + 1;
    }
    if ms.len() > most {
        let mut s = "+".to_owned();
        s.append(decimal(ms.len() - most).as_str());
        s.append(" more");
        put(&mut parts, s);
    }
    join(&parts, ", ")
}

/// The value listed under a name, from `i` on.
pub open spec fn value_of<T>(s: Seq<(Chars, T)>, name: Chars, i: int) -> Option<T>
    decreases s.len() - i,
{
    if i < 0 || i >= s.len() {
        None
    } else if s[i].0 == name {
        Some(s[i].1)
    } else {
        value_of(s, name, i + 1)
    }
}

/// Slots with their types.
pub open spec fn typed_slots(params: Seq<Chars>, types: Seq<Option<Chars>>) -> Seq<Chars> {
    Seq::new(
        params.len(),
        |i: int|
            match types[i] {
                Some(t) => params[i] + ": "@ + t,
                None => params[i],
            },
    )
}

/// The clauses on unused slots, of the first `n` slots.
pub open spec fn unused_clauses(params: Seq<Chars>, unused: Seq<(Chars, usize)>, total: nat, n: int) -> Seq<Chars>
    decreases n,
{
    if n <= 0 {
        Seq::empty()
    } else {
        let was = unused_clauses(params, unused, total, n - 1);
        match value_of(unused, params[n - 1], 0) {
            Some(k) => was.push(params[n - 1] + " unused in "@ + digits(k as nat) + "/"@ + digits(total)),
            None => was,
        }
    }
}

/// Those clauses and the ones on varying slots, of the first `n` slots.
pub open spec fn varying_clauses(was: Seq<Chars>, params: Seq<Chars>, variants: Seq<(Chars, Seq<Chars>)>, n: int) -> Seq<Chars>
    decreases n,
{
    if n <= 0 {
        was
    } else {
        let list = varying_clauses(was, params, variants, n - 1);
        match value_of(variants, params[n - 1], 0) {
            Some(v) => list.push(params[n - 1] + " varies ("@ + joined(v, ", "@) + ")"@),
            None => list,
        }
    }
}

/// What follows a list, where there is something.
pub open spec fn tail_of(clauses: Seq<Chars>) -> Chars {
    if clauses.len() == 0 {
        Seq::empty()
    } else {
        "; "@ + joined(clauses, "; "@)
    }
}

/// The clauses of a clump.
pub open spec fn clump_clauses(
    params: Seq<Chars>,
    variants: Seq<(Chars, Seq<Chars>)>,
    unused: Seq<(Chars, usize)>,
    caller: Option<Chars>,
    total: nat,
) -> Seq<Chars> {
    let n = params.len() as int;
    let list = varying_clauses(unused_clauses(params, unused, total, n), params, variants, n);
    match caller {
        Some(c) => list.push("all called from "@ + c),
        None => list,
    }
}

/// The section line of a clump.
pub open spec fn clump_line(
    params: Seq<Chars>,
    types: Seq<Option<Chars>>,
    clauses: Seq<Chars>,
    ms: Seq<MemberView>,
    files: nat,
    most: usize,
) -> Chars {
    right_aligned(digits(ms.len()), 2) + " fns  "@ + right_aligned(digits(files), 2) + " files  ("@ + joined(
        typed_slots(params, types),
        ", "@,
    ) + ")  "@ + sites_line(ms, most) + tail_of(clauses)
}

/// The clump of a member set.
pub open spec fn clump_of(sides: Seq<SideView>, m: MergedView, cfg: Clumps) -> ClumpView {
    let s = in_order(sides, m.sites);
    let first = fn_at(sides, s[0]);
    let params = shared(first.params, m.names, first.params.len() as int);
    let n = params.len() as int;
    let types = slot_list(sides, params, s);
    let variants = varying(sides, params, s, n);
    let functions = members_of(sides, s);
    let files = files_met(s, s.len() as int);
    let unused_slots = left_unused(sides, params, s, n);
    let caller = if cfg.note_single_caller {
        single_caller(sides, s)
    } else {
        None
    };
    let clauses = clump_clauses(params, variants, unused_slots, caller, s.len());
    ClumpView {
        params,
        types,
        variants,
        functions,
        files: files as usize,
        unused_slots,
        single_caller: caller,
        line: clump_line(params, types, clauses, functions, files, cfg.max_sites_listed),
    }
}

/// The types that a name is listed with.
pub fn variants_of<'a>(s: &'a Vec<(String, Vec<String>)>, name: &str) -> (r: Option<&'a Vec<String>>)
    ensures
        (match r {
            Some(v) => Some(v.deep_view()),
            None => None,
        }) == value_of(s.deep_view(), name@, 0),
{
    let ghost view = s.deep_view();
    let mut i: usize = 0;
    while i < s.len()
        invariant
            i <= s.len(),
            view == s.deep_view(),
            value_of(view, name@, 0) == value_of(view, name@, i as int),
        decreases s.len() - i,
    {
        assert(view[i as int] == s@[i as int].deep_view());
        if same(s[i].0.as_str(), name) {
            return Some(&s[i].1);
        }
        i = i + 1;
    }
    None
}

/// The count that a name is listed with.
pub fn count_of(s: &Vec<(String, usize)>, name: &str) -> (r: Option<usize>)
    ensures
        r == value_of(s.deep_view(), name@, 0),
{
    let ghost view = s.deep_view();
    let mut i: usize = 0;
    while i < s.len()
        invariant
            i <= s.len(),
            view == s.deep_view(),
            value_of(view, name@, 0) == value_of(view, name@, i as int),
        decreases s.len() - i,
    {
        assert(view[i as int] == s@[i as int].deep_view());
        if same(s[i].0.as_str(), name) {
            return Some(s[i].1);
        }
        i = i + 1;
    }
    None
}

proof fn listed_has_value<T>(s: Seq<(Chars, T)>, name: Chars, i: int)
    requires
        0 <= i,
    ensures
        value_of(s, name, i) is Some <==> exists|j: int| i <= j < s.len() && (#[trigger] s[j]).0 == name,
    decreases s.len() - i,
{
    if i < s.len() {
        if s[i].0 == name {
        } else {
            listed_has_value(s, name, i + 1);
        }
    }
}

fn slot_type(sides: &Vec<FileSide>, name: &str, s: &Vec<Site>) -> (r: (Option<String>, Vec<String>))
    requires
        sites_ok(sides.deep_view(), s@),
    ensures
        r.0.deep_view() == the_type(types_of(sides.deep_view(), name@, s@)),
        r.1.deep_view() == types_of(sides.deep_view(), name@, s@),
{
    let ts = find_types(sides, name, s);
    assert(ts.len() == ts.deep_view().len());
    let one = if ts.len() == 1 {
        assert(ts.deep_view()[0] == ts@[0]@);
        Some(ts[0].as_str().to_owned())
    } else {
        None
    };
    (one, ts)
}

fn make_clauses(
    params: &Vec<String>,
    variants: &Vec<(String, Vec<String>)>,
    unused: &Vec<(String, usize)>,
    caller: &Option<String>,
    total: usize,
) -> (out: Vec<String>)
    ensures
        out.deep_view() == clump_clauses(
            params.deep_view(),
            variants.deep_view(),
            unused.deep_view(),
            caller.deep_view(),
            total as nat,
        ),
{
    let ghost pv = params.deep_view();
    let mut out: Vec<String> = Vec::new();
    let mut n: usize = 0;
    assert(out.deep_view() =~= Seq::<Chars>::empty());
    while n < params.len()
        invariant
            n <= params.len(),
            pv == params.deep_view(),
            out.deep_view() == unused_clauses(pv, unused.deep_view(), total as nat, n as int),
        decreases params.len() - n,
    {
        assert(pv[n as int] == params@[n as int]@);
        if let Some(k) = count_of(unused, params[n].as_str()) {
            let mut s = params[n].as_str().to_owned();
            s.append(" unused in ");
            s.append(decimal(k).as_str());
            s.append("/");
            s.append(decimal(total).as_str());
            put(&mut out, s);
        }
        n = n + 1;
    }
    let ghost first = out.deep_view();
    let mut n: usize = 0;
    while n < params.len()
        invariant
            n <= params.len(),
            pv == params.deep_view(),
            out.deep_view() == varying_clauses(first, pv, variants.deep_view(), n as int),
        decreases params.len() - n,
    {
        assert(pv[n as int] == params@[n as int]@);
        if let Some(v) = variants_of(variants, params[n].as_str()) {
            let mut s = params[n].as_str().to_owned();
            s.append(" varies (");
            s.append(join(v, ", ").as_str());
            s.append(")");
            put(&mut out, s);
        }
        n = n + 1;
    }
    if let Some(c) = caller {
        let mut s = "all called from ".to_owned();
        s.append(c.as_str());
        put(&mut out, s);
    }
    out
}

fn make_typed(params: &Vec<String>, types: &Vec<Option<String>>) -> (out: Vec<String>)
    requires
        params.len() == types.len(),
    ensures
        out.deep_view() == typed_slots(params.deep_view(), types.deep_view()),
{
    let ghost pv = params.deep_view();
    let ghost tv = types.deep_view();
    let ghost want = typed_slots(pv, tv);
    let mut out: Vec<String> = Vec::new();
    let mut i: usize = 0;
    while i < params.len()
        invariant
            i <= params.len(),
            i == out.len(),
            params.len() == types.len(),
            pv == params.deep_view(),
            tv == types.deep_view(),
            want == typed_slots(pv, tv),
            forall|j: int| 0 <= j < i ==> (#[trigger] out@[j])@ == want[j],
        decreases params.len() - i,
    {
        assert(pv[i as int] == params@[i as int]@);
        assert(tv[i as int] == types@[i as int].deep_view());
        let mut s = params[i].as_str().to_owned();
        if let Some(t) = &types[i] {
            s.append(": ");
            s.append(t.as_str());
        }
        assert(s@ == want[i as int]);
        out.push(s);
        i = i + 1;
    }
    assert(out.deep_view() =~= want);
    out
}

/// What follows a list, where there is something.
pub fn tail(clauses: &Vec<String>) -> (r: String)
    ensures
        r@ == tail_of(clauses.deep_view()),
{
    assert(clauses.len() == clauses.deep_view().len());
    if clauses.len() == 0 {
        let r = String::new();
        assert(r@ =~= Seq::<char>::empty());
        r
    } else {
        let mut r = "; ".to_owned();
        r.append(join(clauses, "; ").as_str());
        r
    }
}

/// The clump of a member set.
#[verifier::rlimit(60)]
#[verifier::spinoff_prover]
pub fn make_clump(sides: &Vec<FileSide>, m: &Merged, cfg: &Clumps) -> (r: Clump)
    requires
        sites_ok(sides.deep_view(), m.sites@),
        m.sites.len() > 0,
    ensures
        r.deep_view() == clump_of(sides.deep_view(), m.deep_view(), *cfg),
{
    let ghost view = sides.deep_view();
    let s = sort_sites(sides, &m.sites);
    let x: Site = s[0];
    assert(site_ok(view, s@[0]));
    assert(view[x.0 as int] == sides@[x.0 as int].deep_view());
    let side = &sides[x.0];
    assert(side.functions.deep_view()[x.1 as int] == side.functions@[x.1 as int].deep_view());
    let params = find_shared(&side.functions[x.1].params, &m.names);
    let ghost pv = params.deep_view();
    let functions = make_members(sides, &s);
    let files: usize = count_files(&s);
    let ghost want = slot_list(view, pv, s@);
    let mut types: Vec<Option<String>> = Vec::new();
    let mut variants: Vec<(String, Vec<String>)> = Vec::new();
    let mut unused_slots: Vec<(String, usize)> = Vec::new();
    let mut n: usize = 0;
    assert(variants.deep_view() =~= Seq::<(Chars, Seq<Chars>)>::empty());
    assert(unused_slots.deep_view() =~= Seq::<(Chars, usize)>::empty());
    while n < params.len()
        invariant
            n <= params.len(),
            n == types.len(),
            view == sides.deep_view(),
            pv == params.deep_view(),
            sites_ok(view, s@),
            want == slot_list(view, pv, s@),
            forall|j: int| 0 <= j < n ==> (#[trigger] types@[j]).deep_view() == want[j],
            variants.deep_view() == varying(view, pv, s@, n as int),
            unused_slots.deep_view() == left_unused(view, pv, s@, n as int),
        decreases params.len() - n,
    {
        assert(pv[n as int] == params@[n as int]@);
        let name = params[n].as_str();
        let (one, ts) = slot_type(sides, name, &s);
        types.push(one);
        proof {
            listed_has_value(variants.deep_view(), name@, 0);
            listed_has_value(unused_slots.deep_view(), name@, 0);
        }
        assert(ts.len() == ts.deep_view().len());
        if ts.len() > 1 && variants_of(&variants, name).is_none() {
            put(&mut variants, (name.to_owned(), ts));
        }
        let k: usize = count_unused(sides, name, &s);
        if k > 0 && count_of(&unused_slots, name).is_none() {
            put(&mut unused_slots, (name.to_owned(), k));
        }
        n = n + 1;
    }
    assert(types.deep_view() =~= want);
    let single_caller = if cfg.note_single_caller {
        find_caller(sides, &s)
    } else {
        None
    };
    let clauses = make_clauses(&params, &variants, &unused_slots, &single_caller, s.len());
    let typed = make_typed(&params, &types);
    let mut line = align_right(decimal(s.len()).as_str(), 2);
    line.append(" fns  ");
    line.append(align_right(decimal(files).as_str(), 2).as_str());
    line.append(" files  (");
    line.append(join(&typed, ", ").as_str());
    line.append(")  ");
    line.append(sites_text(&functions, cfg.max_sites_listed).as_str());
    line.append(tail(&clauses).as_str());
    Clump { params, types, variants, functions, files, unused_slots, single_caller, line }
}

} // verus!
