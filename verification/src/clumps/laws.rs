//! What holds of every clump.

use vstd::prelude::*;

use crate::clumps::clump::{
    clump_of, fn_at, in_order, merged_at, merged_of, once, param_from, passes, shared, site_keys, slot, with_group, MergedView,
};
use crate::clumps::groups::{
    all_groups, by_name, combined, doubled, group_at, least, most, name_keys, picked, with_fn, with_fns, with_masks,
    with_sides, with_site, GroupView, Site,
};
use crate::clumps::side::{ParamView, SideView};
use crate::config::Clumps;
use crate::order::{ordered, ordered_bounds};
use crate::text::Chars;

verus! {

/// A function has a parameter of each of some names.
pub open spec fn has_slots(sides: Seq<SideView>, s: Site, names: Seq<Chars>) -> bool {
    forall|k: int| 0 <= k < names.len() ==> slot(sides, s, #[trigger] names[k]) is Some
}

/// Every function of every group has its names.
pub open spec fn groups_hold(sides: Seq<SideView>, g: Seq<GroupView>) -> bool {
    forall|i: int, j: int|
        0 <= i < g.len() && 0 <= j < g[i].sites.len() ==> has_slots(sides, #[trigger] g[i].sites[j], g[i].names)
}

/// Every function of every member set has its names.
pub open spec fn sets_hold(sides: Seq<SideView>, m: Seq<MergedView>) -> bool {
    forall|i: int, j: int|
        0 <= i < m.len() && 0 <= j < m[i].sites.len() ==> has_slots(sides, #[trigger] m[i].sites[j], m[i].names)
}

proof fn named_is_found(ps: Seq<ParamView>, name: Chars, i: int, p: int)
    requires
        0 <= i <= p < ps.len(),
        ps[p].name == name,
    ensures
        param_from(ps, name, i) is Some,
    decreases p - i,
{
    if ps[i].name != name {
        named_is_found(ps, name, i + 1, p);
    }
}

proof fn picked_are_found(ps: Seq<ParamView>, order: Seq<int>, mask: nat, i: int)
    requires
        0 <= i,
        forall|k: int| 0 <= k < order.len() ==> 0 <= #[trigger] order[k] < ps.len(),
    ensures
        forall|k: int|
            0 <= k < picked(ps, order, mask, i).len() ==> param_from(ps, #[trigger] picked(ps, order, mask, i)[k], 0) is Some,
    decreases order.len() - i,
{
    if i < order.len() {
        picked_are_found(ps, order, mask / 2, i + 1);
        let out = picked(ps, order, mask, i);
        let rest = picked(ps, order, mask / 2, i + 1);
        assert forall|k: int| 0 <= k < out.len() implies param_from(ps, #[trigger] out[k], 0) is Some by {
            if mask % 2 == 1 {
                if k == 0 {
                    named_is_found(ps, out[0], 0, order[i]);
                } else {
                    assert(out[k] == rest[k - 1]);
                }
            } else {
                assert(out[k] == rest[k]);
            }
        }
    }
}

proof fn found_group(g: Seq<GroupView>, names: Seq<Chars>, i: int)
    requires
        0 <= i,
    ensures
        group_at(g, names, i) matches Some(j) ==> i <= j < g.len() && g[j].names == names,
    decreases g.len() - i,
{
    if i < g.len() && g[i].names != names {
        found_group(g, names, i + 1);
    }
}

proof fn site_holds(sides: Seq<SideView>, g: Seq<GroupView>, names: Seq<Chars>, s: Site)
    requires
        groups_hold(sides, g),
        has_slots(sides, s, names),
    ensures
        groups_hold(sides, with_site(g, names, s)),
{
    found_group(g, names, 0);
    let out = with_site(g, names, s);
    assert forall|i: int, j: int| 0 <= i < out.len() && 0 <= j < out[i].sites.len() implies has_slots(
        sides,
        #[trigger] out[i].sites[j],
        out[i].names,
    ) by {
        if i < g.len() && j < g[i].sites.len() {
            assert(has_slots(sides, g[i].sites[j], g[i].names));
            assert(out[i].sites[j] == g[i].sites[j]);
            assert(out[i].names == g[i].names);
        } else {
            assert(out[i].sites[j] == s);
            assert(out[i].names == names);
        }
    }
}

proof fn masks_hold(
    sides: Seq<SideView>,
    g: Seq<GroupView>,
    order: Seq<int>,
    s: Site,
    mask: nat,
    end: nat,
    cfg: Clumps,
)
    requires
        groups_hold(sides, g),
        forall|k: int| 0 <= k < order.len() ==> 0 <= #[trigger] order[k] < fn_at(sides, s).params.len(),
    ensures
        groups_hold(sides, with_masks(g, fn_at(sides, s).params, order, s, mask, end, cfg)),
    decreases end - mask,
{
    let ps = fn_at(sides, s).params;
    if mask < end {
        let names = picked(ps, order, mask, 0);
        picked_are_found(ps, order, mask, 0);
        assert(has_slots(sides, s, names));
        site_holds(sides, g, names, s);
        let next = if least(cfg) <= names.len() <= most(cfg) {
            with_site(g, names, s)
        } else {
            g
        };
        masks_hold(sides, next, order, s, mask + 1, end, cfg);
    }
}

proof fn fn_holds(sides: Seq<SideView>, g: Seq<GroupView>, s: Site, cfg: Clumps)
    requires
        groups_hold(sides, g),
    ensures
        groups_hold(sides, with_fn(g, fn_at(sides, s), s, cfg)),
{
    let ps = fn_at(sides, s).params;
    let n = combined(ps.len(), cfg);
    ordered_bounds(name_keys(ps, n as int), n as int);
    masks_hold(sides, g, by_name(ps, n as int), s, 1, doubled(n), cfg);
}

proof fn fns_hold(sides: Seq<SideView>, g: Seq<GroupView>, fi: int, k: int, cfg: Clumps)
    requires
        groups_hold(sides, g),
        0 <= fi < sides.len() <= usize::MAX,
        sides[fi].functions.len() <= usize::MAX,
        0 <= k,
    ensures
        groups_hold(sides, with_fns(g, sides[fi].functions, fi as usize, k, cfg)),
    decreases sides[fi].functions.len() - k,
{
    if k < sides[fi].functions.len() {
        let s = (fi as usize, k as usize);
        assert(fn_at(sides, s) == sides[fi].functions[k]);
        fn_holds(sides, g, s, cfg);
        fns_hold(sides, with_fn(g, sides[fi].functions[k], s, cfg), fi, k + 1, cfg);
    }
}

proof fn sides_hold(sides: Seq<SideView>, g: Seq<GroupView>, fi: int, cfg: Clumps)
    requires
        groups_hold(sides, g),
        sides.len() <= usize::MAX,
        forall|i: int| 0 <= i < sides.len() ==> (#[trigger] sides[i]).functions.len() <= usize::MAX,
        0 <= fi,
    ensures
        groups_hold(sides, with_sides(g, sides, fi, cfg)),
    decreases sides.len() - fi,
{
    if fi < sides.len() {
        fns_hold(sides, g, fi, 0, cfg);
        sides_hold(sides, with_fns(g, sides[fi].functions, fi as usize, 0, cfg), fi + 1, cfg);
    }
}

proof fn once_is_among(s: Seq<Site>)
    ensures
        forall|i: int| 0 <= i < once(s).len() ==> s.contains(#[trigger] once(s)[i]),
    decreases s.len(),
{
    if s.len() > 0 {
        once_is_among(s.drop_last());
        let was = once(s.drop_last());
        assert forall|i: int| 0 <= i < once(s).len() implies s.contains(#[trigger] once(s)[i]) by {
            if i < was.len() {
                assert(once(s)[i] == was[i]);
                let j = choose|j: int| 0 <= j < s.drop_last().len() && s.drop_last()[j] == was[i];
                assert(s[j] == was[i]);
            } else {
                assert(s[s.len() - 1] == once(s)[i]);
            }
        }
    }
}

proof fn found_set(m: Seq<MergedView>, sites: Seq<Site>, i: int)
    requires
        0 <= i,
    ensures
        match merged_at(m, sites, i) {
            Some(j) => i <= j < m.len() && m[j].sites == sites,
            None => forall|j: int| i <= j < m.len() ==> (#[trigger] m[j]).sites != sites,
        },
    decreases m.len() - i,
{
    if i < m.len() && m[i].sites != sites {
        found_set(m, sites, i + 1);
    }
}

/// No two member sets are of the same functions.
pub open spec fn sets_differ(m: Seq<MergedView>) -> bool {
    forall|a: int, b: int| 0 <= a < b < m.len() ==> (#[trigger] m[a]).sites != (#[trigger] m[b]).sites
}

/// A member set is that of a group which passes the thresholds.
pub open spec fn from_passing(sides: Seq<SideView>, g: Seq<GroupView>, cfg: Clumps, n: int, sites: Seq<Site>) -> bool {
    exists|k: int| 0 <= k < n && passes(sides, #[trigger] g[k], cfg) && once(g[k].sites) == sites
}

/// The clumps are those the thresholds ask for: each is the member set of a group that passes them,
/// and the member set of every such group is a clump.
pub proof fn clumps_meet_the_thresholds(sides: Seq<SideView>, g: Seq<GroupView>, cfg: Clumps, n: int)
    requires
        0 <= n <= g.len(),
    ensures
        forall|i: int|
            0 <= i < merged_of(sides, g, cfg, n).len() ==> from_passing(
                sides,
                g,
                cfg,
                n,
                (#[trigger] merged_of(sides, g, cfg, n)[i]).sites,
            ),
        forall|k: int|
            0 <= k < n && passes(sides, #[trigger] g[k], cfg) ==> exists|i: int|
                0 <= i < merged_of(sides, g, cfg, n).len() && (#[trigger] merged_of(sides, g, cfg, n)[i]).sites == once(g[k].sites),
    decreases n,
{
    if n > 0 {
        clumps_meet_the_thresholds(sides, g, cfg, n - 1);
        let was = merged_of(sides, g, cfg, n - 1);
        let out = merged_of(sides, g, cfg, n);
        let key = once(g[n - 1].sites);
        if passes(sides, g[n - 1], cfg) {
            found_set(was, key, 0);
            assert(out == with_group(was, g[n - 1]));
            assert(from_passing(sides, g, cfg, n, key));
        }
        assert forall|i: int| 0 <= i < out.len() implies from_passing(sides, g, cfg, n, (#[trigger] out[i]).sites) by {
            if i < was.len() && out[i].sites == was[i].sites {
                let k = choose|k: int| 0 <= k < n - 1 && passes(sides, #[trigger] g[k], cfg) && once(g[k].sites) == was[i].sites;
                assert(passes(sides, g[k], cfg));
            }
        }
        assert forall|k: int| 0 <= k < n && passes(sides, #[trigger] g[k], cfg) implies exists|i: int|
            0 <= i < out.len() && (#[trigger] out[i]).sites == once(g[k].sites) by {
            if k == n - 1 {
                match merged_at(was, key, 0) {
                    Some(i) => {
                        assert(out[i].sites == key);
                    },
                    None => {
                        assert(out[was.len() as int].sites == key);
                    },
                }
            } else {
                let i = choose|i: int| 0 <= i < was.len() && (#[trigger] was[i]).sites == once(g[k].sites);
                assert(out[i].sites == was[i].sites);
            }
        }
    }
}

/// Groups with one member set collapse into one: no two member sets are of the same functions.
pub proof fn member_sets_differ(sides: Seq<SideView>, g: Seq<GroupView>, cfg: Clumps, n: int)
    ensures
        sets_differ(merged_of(sides, g, cfg, n)),
    decreases n,
{
    if n > 0 {
        member_sets_differ(sides, g, cfg, n - 1);
        let was = merged_of(sides, g, cfg, n - 1);
        found_set(was, once(g[n - 1].sites), 0);
    }
}

proof fn merged_holds(sides: Seq<SideView>, g: Seq<GroupView>, cfg: Clumps, n: int)
    requires
        groups_hold(sides, g),
        n <= g.len(),
    ensures
        sets_hold(sides, merged_of(sides, g, cfg, n)),
    decreases n,
{
    if n > 0 {
        merged_holds(sides, g, cfg, n - 1);
        let was = merged_of(sides, g, cfg, n - 1);
        let x = g[n - 1];
        let key = once(x.sites);
        let out = merged_of(sides, g, cfg, n);
        found_set(was, key, 0);
        once_is_among(x.sites);
        assert forall|i: int, j: int| 0 <= i < out.len() && 0 <= j < out[i].sites.len() implies has_slots(
            sides,
            #[trigger] out[i].sites[j],
            out[i].names,
        ) by {
            if passes(sides, x, cfg) {
                let here = match merged_at(was, key, 0) {
                    Some(a) => i == a,
                    None => i == was.len(),
                };
                if here {
                    assert(out[i].sites == key);
                    assert(x.sites.contains(key[j]));
                    let k = choose|k: int| 0 <= k < x.sites.len() && x.sites[k] == key[j];
                    assert(has_slots(sides, g[n - 1].sites[k], x.names));
                    if i < was.len() {
                        assert(has_slots(sides, was[i].sites[j], was[i].names));
                        let all = was[i].names + x.names;
                        assert forall|p: int| 0 <= p < all.len() implies slot(sides, key[j], #[trigger] all[p]) is Some by {
                            if p < was[i].names.len() {
                                assert(all[p] == was[i].names[p]);
                            } else {
                                assert(all[p] == x.names[p - was[i].names.len()]);
                            }
                        }
                    }
                } else {
                    assert(out[i] == was[i]);
                    assert(has_slots(sides, was[i].sites[j], was[i].names));
                }
            } else {
                assert(has_slots(sides, was[i].sites[j], was[i].names));
            }
        }
    }
}

proof fn shared_are_among(ps: Seq<ParamView>, names: Seq<Chars>, n: int)
    ensures
        forall|k: int| 0 <= k < shared(ps, names, n).len() ==> names.contains(#[trigger] shared(ps, names, n)[k]),
    decreases n,
{
    if n > 0 {
        shared_are_among(ps, names, n - 1);
        let was = shared(ps, names, n - 1);
        assert forall|k: int| 0 <= k < shared(ps, names, n).len() implies names.contains(#[trigger] shared(ps, names, n)[k]) by {
            if k < was.len() {
                assert(shared(ps, names, n)[k] == was[k]);
            }
        }
    }
}

/// Every member of a clump has a parameter for each of the clump's slots.
pub proof fn every_member_has_every_slot(sides: Seq<SideView>, cfg: Clumps, i: int)
    requires
        sides.len() <= usize::MAX,
        forall|j: int| 0 <= j < sides.len() ==> (#[trigger] sides[j]).functions.len() <= usize::MAX,
        0 <= i < merged_of(sides, all_groups(sides, cfg), cfg, all_groups(sides, cfg).len() as int).len(),
    ensures
        ({
            let m = merged_of(sides, all_groups(sides, cfg), cfg, all_groups(sides, cfg).len() as int)[i];
            let s = in_order(sides, m.sites);
            forall|j: int| 0 <= j < s.len() ==> has_slots(sides, #[trigger] s[j], clump_of(sides, m, cfg).params)
        }),
{
    let g = all_groups(sides, cfg);
    sides_hold(sides, Seq::empty(), 0, cfg);
    merged_holds(sides, g, cfg, g.len() as int);
    let m = merged_of(sides, g, cfg, g.len() as int)[i];
    let s = in_order(sides, m.sites);
    let first = fn_at(sides, s[0]);
    let params = clump_of(sides, m, cfg).params;
    shared_are_among(first.params, m.names, first.params.len() as int);
    ordered_bounds(site_keys(sides, m.sites), m.sites.len() as int);
    assert forall|j: int| 0 <= j < s.len() implies has_slots(sides, #[trigger] s[j], params) by {
        let at = ordered(site_keys(sides, m.sites), m.sites.len() as int)[j];
        assert(s[j] == m.sites[at]);
        assert(has_slots(sides, m.sites[at], m.names));
        assert forall|k: int| 0 <= k < params.len() implies slot(sides, s[j], #[trigger] params[k]) is Some by {
            assert(m.names.contains(params[k]));
            let p = choose|p: int| 0 <= p < m.names.len() && m.names[p] == params[k];
            assert(slot(sides, m.sites[at], m.names[p]) is Some);
        }
    }
}

} // verus!
