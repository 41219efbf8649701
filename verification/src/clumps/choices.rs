//! Which parameters travel together and who calls with them, stated over functions.

use vstd::prelude::*;

use crate::clumps::clump::{
    agreeing, caller_from, callers_from, callers_in, calls, files_met, fn_at, letters, named_outside, param_from, passes, slot, slot_types, types_of,
    unused_in,
};
use crate::clumps::groups::{by_name, combined, doubled, group_at, least, most, picked, with_fn, with_masks, with_site, GroupView, Site};
use crate::clumps::side::{FnView, ParamView, SideView};
use crate::config::Clumps;
use crate::text::Chars;
use crate::units::bare;

verus! {

// ---------- groups ----------

/// A group of these names has the site.
pub open spec fn grouped(g: Seq<GroupView>, names: Seq<Chars>, s: Site) -> bool {
    exists|k: int| 0 <= k < g.len() && (#[trigger] g[k]).names == names && g[k].sites.contains(s)
}

proof fn found_is_named(g: Seq<GroupView>, names: Seq<Chars>, i: int)
    requires
        0 <= i,
    ensures
        group_at(g, names, i) matches Some(k) ==> i <= k < g.len() && g[k].names == names,
    decreases g.len() - i,
{
    if i < g.len() && g[i].names != names {
        found_is_named(g, names, i + 1);
    }
}

proof fn site_is_grouped(g: Seq<GroupView>, names: Seq<Chars>, s: Site)
    ensures
        grouped(with_site(g, names, s), names, s),
        forall|n: Seq<Chars>, x: Site| grouped(g, n, x) ==> #[trigger] grouped(with_site(g, names, s), n, x),
{
    let all = with_site(g, names, s);
    found_is_named(g, names, 0);
    match group_at(g, names, 0) {
        Some(i) => {
            let was = g[i].sites;
            assert(all[i].sites[was.len() as int] == s);
            assert forall|n: Seq<Chars>, x: Site| grouped(g, n, x) implies #[trigger] grouped(all, n, x) by {
                let k = choose|k: int| 0 <= k < g.len() && (#[trigger] g[k]).names == n && g[k].sites.contains(x);
                let y = choose|y: int| 0 <= y < g[k].sites.len() && g[k].sites[y] == x;
                assert(all[k].names == n);
                assert(all[k].sites[y] == x);
            }
        },
        None => {
            let n = g.len() as int;
            assert(all[n].sites[0] == s);
            assert(all[n].names == names);
            assert forall|n: Seq<Chars>, x: Site| grouped(g, n, x) implies #[trigger] grouped(all, n, x) by {
                let k = choose|k: int| 0 <= k < g.len() && (#[trigger] g[k]).names == n && g[k].sites.contains(x);
                assert(all[k] == g[k]);
            }
        },
    }
}

proof fn masks_keep(g: Seq<GroupView>, ps: Seq<ParamView>, order: Seq<int>, s: Site, mask: nat, end: nat, cfg: Clumps, n: Seq<Chars>, x: Site)
    requires
        grouped(g, n, x),
    ensures
        grouped(with_masks(g, ps, order, s, mask, end, cfg), n, x),
    decreases end - mask,
{
    if mask < end {
        let names = picked(ps, order, mask, 0);
        site_is_grouped(g, names, s);
        let next = if least(cfg) <= names.len() <= most(cfg) {
            with_site(g, names, s)
        } else {
            g
        };
        assert(grouped(next, n, x));
        masks_keep(next, ps, order, s, mask + 1, end, cfg, n, x);
    }
}

proof fn mask_is_grouped(g: Seq<GroupView>, ps: Seq<ParamView>, order: Seq<int>, s: Site, mask: nat, end: nat, cfg: Clumps, m: nat)
    requires
        mask <= m < end,
        least(cfg) <= picked(ps, order, m, 0).len() <= most(cfg),
    ensures
        grouped(with_masks(g, ps, order, s, mask, end, cfg), picked(ps, order, m, 0), s),
    decreases m - mask,
{
    let names = picked(ps, order, mask, 0);
    site_is_grouped(g, names, s);
    let next = if least(cfg) <= names.len() <= most(cfg) {
        with_site(g, names, s)
    } else {
        g
    };
    if mask == m {
        masks_keep(next, ps, order, s, mask + 1, end, cfg, names, s);
    } else {
        mask_is_grouped(next, ps, order, s, mask + 1, end, cfg, m);
    }
}

/// Every choice of parameters of a function, in the order of their names, whose size the settings
/// allow is a group that has the function: each number from one on, read in bits, is a choice.
pub proof fn every_choice_of_parameters_is_a_group(g: Seq<GroupView>, f: FnView, s: Site, cfg: Clumps, m: nat)
    requires
        combined(f.params.len(), cfg) >= least(cfg),
        1 <= m < doubled(combined(f.params.len(), cfg)),
        least(cfg) <= picked(f.params, by_name(f.params, combined(f.params.len(), cfg) as int), m, 0).len() <= most(cfg),
    ensures
        grouped(with_fn(g, f, s, cfg), picked(f.params, by_name(f.params, combined(f.params.len(), cfg) as int), m, 0), s),
{
    let n = combined(f.params.len(), cfg);
    mask_is_grouped(g, f.params, by_name(f.params, n as int), s, 1, doubled(n), cfg, m);
}

/// The sizes of a group that the settings allow: at least one, and the most not under the least.
pub proof fn a_group_has_a_size(cfg: Clumps)
    ensures
        least(cfg) >= 1,
        least(cfg) >= cfg.min_group,
        most(cfg) >= least(cfg),
        cfg.min_group >= 1 ==> least(cfg) == cfg.min_group,
        cfg.max_group >= least(cfg) ==> most(cfg) == cfg.max_group,
{
}

// ---------- types ----------

/// Site `s` states the type of a parameter.
pub open spec fn states_type(sides: Seq<SideView>, s: Site, name: Chars, t: Chars) -> bool {
    slot(sides, s, name) matches Some(p) && p.ty == Some(t)
}

proof fn types_are_stated(sides: Seq<SideView>, name: Chars, sites: Seq<Site>, n: int, t: Chars)
    requires
        0 <= n <= sites.len(),
    ensures
        slot_types(sides, name, sites, n).contains(t) <==> exists|k: int| 0 <= k < n && states_type(sides, #[trigger] sites[k], name, t),
        slot_types(sides, name, sites, n).no_duplicates(),
    decreases n,
{
    if n > 0 {
        types_are_stated(sides, name, sites, n - 1, t);
        let was = slot_types(sides, name, sites, n - 1);
        let all = slot_types(sides, name, sites, n);
        if was.contains(t) {
            let k = choose|k: int| 0 <= k < n - 1 && states_type(sides, #[trigger] sites[k], name, t);
            let x = choose|x: int| 0 <= x < was.len() && was[x] == t;
            assert(all[x] == t);
            assert(states_type(sides, sites[k], name, t));
        }
        if states_type(sides, sites[n - 1], name, t) && !was.contains(t) {
            assert(all[was.len() as int] == t);
        }
        if all.contains(t) && !was.contains(t) {
            let x = choose|x: int| 0 <= x < all.len() && all[x] == t;
            if x < was.len() {
                assert(was[x] == t);
            }
            assert(states_type(sides, sites[n - 1], name, t));
        }
        if exists|k: int| 0 <= k < n && states_type(sides, #[trigger] sites[k], name, t) {
            let k = choose|k: int| 0 <= k < n && states_type(sides, #[trigger] sites[k], name, t);
            if k < n - 1 {
                assert(was.contains(t));
            }
        }
    }
}

/// The types of a parameter are those that some function of the group states, each once.
pub proof fn the_types_of_a_parameter_are_stated(sides: Seq<SideView>, name: Chars, sites: Seq<Site>, t: Chars)
    ensures
        types_of(sides, name, sites).contains(t) <==> exists|k: int| 0 <= k < sites.len() && states_type(sides, #[trigger] sites[k], name, t),
        types_of(sides, name, sites).no_duplicates(),
{
    types_are_stated(sides, name, sites, sites.len() as int, t);
}

proof fn first_is_the_slot(ps: Seq<ParamView>, name: Chars, k: int, i: int)
    requires
        0 <= k <= i < ps.len(),
        ps[i].name == name,
        forall|j: int| k <= j < i ==> (#[trigger] ps[j]).name != name,
    ensures
        param_from(ps, name, k) == Some(ps[i]),
    decreases i - k,
{
    if k < i {
        first_is_the_slot(ps, name, k + 1, i);
    }
}

/// The slot of a name is the first parameter of that name.
pub proof fn a_slot_is_the_first_of_its_name(sides: Seq<SideView>, s: Site, name: Chars, i: int)
    requires
        0 <= i < fn_at(sides, s).params.len(),
        fn_at(sides, s).params[i].name == name,
        forall|j: int| 0 <= j < i ==> (#[trigger] fn_at(sides, s).params[j]).name != name,
    ensures
        slot(sides, s, name) == Some(fn_at(sides, s).params[i]),
{
    first_is_the_slot(fn_at(sides, s).params, name, 0, i);
}

// ---------- what is reported ----------

/// A group is reported where enough functions and files have it, both or either as the settings say,
/// and where enough of its parameters have one type; one without any types where more functions than
/// the least have it and its names are long.
pub proof fn a_group_passes_by_its_size_and_types(sides: Seq<SideView>, g: GroupView, cfg: Clumps)
    ensures
        ({
            let functions = g.sites.len();
            let files = files_met(g.sites, functions as int);
            let many = if cfg.report_if_either {
                functions >= cfg.min_functions || files >= cfg.min_files
            } else {
                functions >= cfg.min_functions && files >= cfg.min_files
            };
            let typed = agreeing(sides, g.names, g.sites, g.names.len() as int) >= cfg.min_typed_slots;
            let untyped = forall|i: int| 0 <= i < g.names.len() ==> types_of(sides, #[trigger] g.names[i], g.sites).len() == 0;
            let long = letters(g.names, g.names.len() as int) >= cfg.min_name_len;
            passes(sides, g, cfg) <==> many && (typed || untyped && functions > cfg.min_functions && long)
        }),
{
}

/// The parameters of one type are counted.
pub proof fn a_parameter_of_one_type_is_counted(sides: Seq<SideView>, names: Seq<Chars>, sites: Seq<Site>, n: int)
    requires
        0 <= n <= names.len(),
    ensures
        agreeing(sides, names, sites, n) == names.take(n).filter(|name: Chars| types_of(sides, name, sites).len() == 1).len(),
    decreases n,
{
    reveal(Seq::filter);
    if n > 0 {
        a_parameter_of_one_type_is_counted(sides, names, sites, n - 1);
        assert(names.take(n).drop_last() =~= names.take(n - 1));
    }
}

/// The functions that leave a parameter unused are counted.
pub proof fn an_unused_parameter_is_counted(sides: Seq<SideView>, name: Chars, sites: Seq<Site>, n: int)
    requires
        0 <= n <= sites.len(),
    ensures
        unused_in(sides, name, sites, n) == sites.take(n).filter(|s: Site| slot(sides, s, name) matches Some(p) && p.unused).len(),
    decreases n,
{
    reveal(Seq::filter);
    if n > 0 {
        an_unused_parameter_is_counted(sides, name, sites, n - 1);
        assert(sites.take(n).drop_last() =~= sites.take(n - 1));
    }
}

// ---------- callers ----------

/// Function `c` calls a function `s` of this name: another one, of another name, that refers to it.
pub open spec fn is_caller(sides: Seq<SideView>, c: Site, s: Site, name: Chars) -> bool {
    &&& c != s
    &&& bare(fn_at(sides, c).name) != name
    &&& fn_at(sides, c).refs.contains(name)
}

proof fn callers_in_are(sides: Seq<SideView>, fi: int, k: int, s: Site, name: Chars, acc: Seq<Site>, c: Site)
    requires
        0 <= fi < sides.len() <= usize::MAX,
        0 <= k,
        sides[fi].functions.len() <= usize::MAX,
    ensures
        callers_in(sides, fi, k, s, name, acc).contains(c) <==> acc.contains(c) || c.0 == fi && k <= c.1 < sides[fi].functions.len() && is_caller(
            sides,
            c,
            s,
            name,
        ),
    decreases sides[fi].functions.len() - k,
{
    if k < sides[fi].functions.len() {
        let d = (fi as usize, k as usize);
        let next = if calls(sides, d, s, name) {
            acc.push(d)
        } else {
            acc
        };
        assert(next.contains(c) <==> acc.contains(c) || calls(sides, d, s, name) && c == d) by {
            if calls(sides, d, s, name) {
                assert(next[acc.len() as int] == d);
                if acc.contains(c) {
                    let x = choose|x: int| 0 <= x < acc.len() && acc[x] == c;
                    assert(next[x] == c);
                }
            }
        }
        callers_in_are(sides, fi, k + 1, s, name, next, c);
    }
}

proof fn callers_are(sides: Seq<SideView>, fi: int, s: Site, name: Chars, acc: Seq<Site>, c: Site)
    requires
        0 <= fi,
        sides.len() <= usize::MAX,
        forall|i: int| 0 <= i < sides.len() ==> (#[trigger] sides[i]).functions.len() <= usize::MAX,
    ensures
        callers_from(sides, fi, s, name, acc).contains(c) <==> acc.contains(c) || fi <= c.0 < sides.len() && c.1 < sides[c.0 as int].functions.len()
            && is_caller(sides, c, s, name),
    decreases sides.len() - fi,
{
    if fi < sides.len() {
        callers_in_are(sides, fi, 0, s, name, acc, c);
        callers_are(sides, fi + 1, s, name, callers_in(sides, fi, 0, s, name, acc), c);
    }
}

/// The callers of a function are all the other functions, of other names, that refer to it.
pub proof fn every_function_that_refers_to_another_calls_it(sides: Seq<SideView>, s: Site, name: Chars, c: Site)
    requires
        sides.len() <= usize::MAX,
        forall|i: int| 0 <= i < sides.len() ==> (#[trigger] sides[i]).functions.len() <= usize::MAX,
    ensures
        callers_from(sides, 0, s, name, Seq::empty()).contains(c) <==> c.0 < sides.len() && c.1 < sides[c.0 as int].functions.len() && is_caller(
            sides,
            c,
            s,
            name,
        ),
{
    callers_are(sides, 0, s, name, Seq::empty(), c);
}

/// One function is the single caller of a group where it is the only caller of each member and nothing
/// outside functions names any.
pub proof fn a_single_caller_calls_every_member(sides: Seq<SideView>, s: Seq<Site>, i: int, caller: Option<Site>, c: Site, k: int)
    requires
        caller_from(sides, s, i, caller) == Some(c),
        0 <= i <= k < s.len(),
    ensures
        callers_from(sides, 0, s[k], bare(fn_at(sides, s[k]).name), Seq::empty()) == seq![c],
        !named_outside(sides, bare(fn_at(sides, s[k]).name)),
    decreases s.len() - i,
{
    let callers = callers_from(sides, 0, s[i], bare(fn_at(sides, s[i]).name), Seq::empty());
    caller_is_kept(sides, s, i + 1, callers[0]);
    if i == k {
        assert(callers =~= seq![c]);
    } else {
        a_single_caller_calls_every_member(sides, s, i + 1, Some(callers[0]), c, k);
    }
}

proof fn caller_is_kept(sides: Seq<SideView>, s: Seq<Site>, i: int, d: Site)
    ensures
        caller_from(sides, s, i, Some(d)) matches Some(c) ==> c == d,
    decreases s.len() - i,
{
    if 0 <= i < s.len() {
        caller_is_kept(sides, s, i + 1, d);
    }
}

} // verus!
