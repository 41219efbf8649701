//! Where an alias of a TypeScript configuration leads, stated over texts.

use vstd::prelude::*;

use crate::deps::tsconfig::{
    best_pattern, candidates_of, capture_of, chain, chain_from, config_at, config_candidates, config_of, filled,
    local_parents, nearest, parent_path, pattern_of, resolved_config, ConfigView, PatternView, RawView, TsConfigView,
};
use crate::discover::dir_of;
use crate::paths::read_from;
use crate::text::{byte_len, ends, first_of, starts, Chars};
use crate::tree::{child_of, Nodes};

verus! {

// ---------- patterns ----------

/// A text holds a pattern's capture: `prefix` and `suffix` around it.
pub open spec fn captures(p: PatternView, spec: Chars, cap: Chars) -> bool {
    match p.suffix {
        Some(suffix) => spec == p.prefix + cap + suffix,
        None => spec == p.prefix && cap.len() == 0,
    }
}

/// A pattern matches just the texts that start with its prefix and end with its suffix, and captures
/// what stands between; one without a star matches itself alone.
pub proof fn a_pattern_captures_what_its_star_stands_for(p: PatternView, spec: Chars, cap: Chars)
    ensures
        capture_of(p, spec) == Some(cap) <==> captures(p, spec, cap),
{
    match p.suffix {
        Some(suffix) => {
            let n = p.prefix.len() as int;
            if captures(p, spec, cap) {
                assert(spec.subrange(0, n) =~= p.prefix);
                let rest = spec.skip(n);
                assert(rest =~= cap + suffix);
                assert(rest.subrange(rest.len() - suffix.len(), rest.len() as int) =~= suffix);
                assert(rest.take(rest.len() - suffix.len()) =~= cap);
            }
            if capture_of(p, spec) == Some(cap) {
                let rest = spec.skip(n);
                assert(spec.subrange(0, n) == p.prefix);
                assert(spec =~= p.prefix + rest);
                assert(rest =~= cap + suffix) by {
                    assert(rest.subrange(rest.len() - suffix.len(), rest.len() as int) == suffix);
                }
                assert(spec =~= p.prefix + cap + suffix);
            }
        },
        None => {
            if captures(p, spec, cap) {
                assert(cap =~= Seq::<char>::empty());
            }
        },
    }
}

proof fn star_is_first(pre: Chars, suf: Chars, k: int)
    requires
        forall|i: int| 0 <= i < pre.len() ==> #[trigger] pre[i] != '*',
        0 <= k <= pre.len(),
    ensures
        first_of(pre + seq!['*'] + suf, '*', k) == Some(pre.len() as int),
    decreases pre.len() - k,
{
    let s = pre + seq!['*'] + suf;
    if k < pre.len() {
        assert(s[k] == pre[k]);
        star_is_first(pre, suf, k + 1);
    } else {
        assert(s[k] == '*');
    }
}

proof fn no_star(s: Chars, k: int)
    requires
        forall|i: int| 0 <= i < s.len() ==> #[trigger] s[i] != '*',
        0 <= k,
    ensures
        first_of(s, '*', k) is None,
    decreases s.len() - k,
{
    if k < s.len() {
        no_star(s, k + 1);
    }
}

/// A target with a star has the capture in its place; one without is itself.
pub proof fn a_target_is_filled(pre: Chars, suf: Chars, cap: Chars)
    requires
        forall|i: int| 0 <= i < pre.len() ==> #[trigger] pre[i] != '*',
    ensures
        filled(pre + seq!['*'] + suf, cap) == pre + cap + suf,
        filled(pre, cap) == pre,
{
    let s = pre + seq!['*'] + suf;
    star_is_first(pre, suf, 0);
    assert(s.take(pre.len() as int) =~= pre);
    assert(s.skip(pre.len() as int + 1) =~= suf);
    no_star(pre, 0);
}

/// One pattern goes before another: without a star before one with, and a longer prefix before a
/// shorter one.
pub open spec fn goes_before(p: PatternView, q: PatternView) -> bool {
    ||| p.suffix is None && q.suffix is Some
    ||| (p.suffix is None) == (q.suffix is None) && byte_len(p.prefix) > byte_len(q.prefix)
}

proof fn best_is_best(paths: Seq<PatternView>, spec: Chars, n: int)
    requires
        0 <= n <= paths.len(),
    ensures
        match best_pattern(paths, spec, n) {
            Some(b) => 0 <= b < n && capture_of(paths[b], spec) is Some && forall|j: int|
                0 <= j < n && capture_of(#[trigger] paths[j], spec) is Some ==> !goes_before(paths[j], paths[b]),
            None => forall|j: int| 0 <= j < n ==> capture_of(#[trigger] paths[j], spec) is None,
        },
    decreases n,
{
    if n > 0 {
        best_is_best(paths, spec, n - 1);
    }
}

/// Of the patterns that match, one is followed that no other goes before; it leads to each of its
/// targets with the capture filled in.
pub proof fn the_best_alias_is_followed(c: TsConfigView, spec: Chars, b: int, k: int)
    requires
        best_pattern(c.paths, spec, c.paths.len() as int) == Some(b),
        0 <= k < c.paths[b].targets.len(),
    ensures
        0 <= b < c.paths.len(),
        forall|j: int| 0 <= j < c.paths.len() && capture_of(#[trigger] c.paths[j], spec) is Some ==> !goes_before(c.paths[j], c.paths[b]),
        capture_of(c.paths[b], spec) matches Some(cap) ==> config_candidates(c, spec)[k] == filled(c.paths[b].targets[k], cap),
        capture_of(c.paths[b], spec) is Some,
{
    best_is_best(c.paths, spec, c.paths.len() as int);
}

/// A base directory is tried after the aliases, and alone where none matches.
pub proof fn the_base_directory_is_tried_last(c: TsConfigView, spec: Chars, base: Chars)
    requires
        c.base_url == Some(base),
    ensures
        config_candidates(c, spec).len() > 0,
        config_candidates(c, spec).last() == read_from(base, spec),
        (forall|j: int| 0 <= j < c.paths.len() ==> capture_of(#[trigger] c.paths[j], spec) is None) ==> config_candidates(c, spec) == seq![
            read_from(base, spec),
        ],
{
    best_is_best(c.paths, spec, c.paths.len() as int);
    if forall|j: int| 0 <= j < c.paths.len() ==> capture_of(#[trigger] c.paths[j], spec) is None {
        assert(config_candidates(c, spec) =~= seq![read_from(base, spec)]);
    }
}

/// A configuration governs the directory it stands in and all below it.
pub open spec fn governs(dir: Chars, from: Chars) -> bool {
    dir.len() == 0 || from == dir || starts(from, dir + "/"@)
}

proof fn nearest_governs(configs: Seq<TsConfigView>, from: Chars, k: int)
    requires
        0 <= k,
    ensures
        match nearest(configs, from, k) {
            Some(i) => k <= i < configs.len() && governs(configs[i].dir, from) && forall|j: int|
                k <= j < i ==> !governs((#[trigger] configs[j]).dir, from),
            None => forall|j: int| k <= j < configs.len() ==> !governs((#[trigger] configs[j]).dir, from),
        },
    decreases configs.len() - k,
{
    if k < configs.len() && !governs(configs[k].dir, from) {
        nearest_governs(configs, from, k + 1);
    }
}

/// A file is resolved by the first configuration that governs it, and by that alone.
pub proof fn the_first_configuration_governs(configs: Seq<TsConfigView>, from: Chars, spec: Chars, i: int)
    requires
        0 <= i < configs.len(),
        governs(configs[i].dir, from),
        forall|j: int| 0 <= j < i ==> !governs((#[trigger] configs[j]).dir, from),
    ensures
        candidates_of(configs, from, spec) == config_candidates(configs[i], spec),
{
    nearest_governs(configs, from, 0);
    let k = nearest(configs, from, 0)->0;
    assert(k == i) by {
        if k < i {
            assert(!governs(configs[k].dir, from));
        }
    }
}

// ---------- configurations ----------

/// A configuration's base directory is read from its own directory, and its targets from the base
/// directory, or from its own where it has none.
pub proof fn targets_are_read_from_the_base(rel: Chars, t: Nodes, o: usize)
    requires
        t.len() > 0,
        child_of(t, 0, "compilerOptions"@) == Some(o),
        o < t.len(),
    ensures
        ({
            let c = config_of(rel, Some(t));
            let base = match c.base_url {
                Some(b) => b,
                None => dir_of(rel),
            };
            &&& child_of(t, o as int, "baseUrl"@) matches Some(b) ==> (t[b as int].kind == "string"@ ==> c.base_url == Some(
                read_from(dir_of(rel), t[b as int].text),
            ))
            &&& child_of(t, o as int, "baseUrl"@) is None ==> c.base_url is None
            &&& child_of(t, o as int, "paths"@) matches Some(p) ==> (t[p as int].kind == "table"@ ==> (c.paths matches Some(list) && list.len()
                == t[p as int].children.len() && forall|k: int|
                0 <= k < list.len() ==> #[trigger] list[k] == pattern_of(t, t[p as int].children[k] as int, base)))
        }),
{
}

/// A key of `paths` with a star is split at it; its targets are those it lists, read from the base.
pub proof fn a_key_is_split_at_its_star(t: Nodes, i: usize, base: Chars, pre: Chars, suf: Chars)
    requires
        forall|k: int| 0 <= k < pre.len() ==> #[trigger] pre[k] != '*',
    ensures
        t[i as int].field == pre + seq!['*'] + suf ==> pattern_of(t, i as int, base).prefix == pre && pattern_of(t, i as int, base).suffix == Some(suf),
        t[i as int].field == pre ==> pattern_of(t, i as int, base).prefix == pre && pattern_of(t, i as int, base).suffix is None,
{
    let s = pre + seq!['*'] + suf;
    star_is_first(pre, suf, 0);
    assert(s.take(pre.len() as int) =~= pre);
    assert(s.skip(pre.len() as int + 1) =~= suf);
    no_star(pre, 0);
}

proof fn parent_is_listed(dir: Chars, list: Seq<Chars>, k: int)
    requires
        0 <= k < list.len(),
        list[k].len() > 0,
        list[k][0] == '.',
    ensures
        local_parents(dir, list).contains(parent_path(dir, list[k])),
    decreases list.len(),
{
    reveal_strlit(".");
    let rest = local_parents(dir, list.drop_last());
    let all = local_parents(dir, list);
    assert(list[k].subrange(0, 1) =~= "."@);
    if k == list.len() - 1 {
        assert(all[rest.len() as int] == parent_path(dir, list[k]));
    } else {
        parent_is_listed(dir, list.drop_last(), k);
        let x = choose|x: int| 0 <= x < rest.len() && rest[x] == parent_path(dir, list[k]);
        assert(all[x] == rest[x]);
    }
}

/// A configuration extends each path that it names from its own directory, with `.json` at its end.
pub proof fn a_local_parent_is_extended(dir: Chars, list: Seq<Chars>, k: int)
    requires
        0 <= k < list.len(),
        list[k].len() > 0,
        list[k][0] == '.',
    ensures
        ends(read_from(dir, list[k]), ".json"@) ==> local_parents(dir, list).contains(read_from(dir, list[k])),
        !ends(read_from(dir, list[k]), ".json"@) ==> local_parents(dir, list).contains(read_from(dir, list[k]) + ".json"@),
{
    parent_is_listed(dir, list, k);
}

proof fn own_stays(files: Seq<ConfigView>, parents: Seq<Chars>, n: int, own: RawView, depth: nat)
    requires
        0 <= n,
    ensures
        own.base_url is Some ==> chain_from(files, parents, n, own, depth).base_url == own.base_url,
        own.paths is Some ==> chain_from(files, parents, n, own, depth).paths == own.paths,
    decreases n,
{
    if n > 0 {
        own_stays(files, parents, n - 1, own, depth);
    }
}

/// What a configuration states goes before what it extends; what it leaves out it has from the first
/// that it extends.
pub proof fn a_configuration_goes_before_its_parents(files: Seq<ConfigView>, rel: Chars, i: int)
    requires
        config_at(files, rel, 0) == Some(i),
    ensures
        files[i].base_url is Some ==> resolved_config(files, rel).base_url == files[i].base_url,
        files[i].paths matches Some(p) ==> resolved_config(files, rel).paths == p,
        files[i].parents.len() == 1 ==> {
            &&& files[i].base_url is None ==> resolved_config(files, rel).base_url == chain(files, files[i].parents[0], 1).base_url
            &&& files[i].paths is None ==> (chain(files, files[i].parents[0], 1).paths matches Some(p) ==> resolved_config(files, rel).paths
                == p)
        },
{
    let own = RawView { base_url: files[i].base_url, paths: files[i].paths };
    own_stays(files, files[i].parents, files[i].parents.len() as int, own, 0);
    if files[i].parents.len() == 1 {
        assert(chain_from(files, files[i].parents, 0, own, 0) == own);
    }
}

} // verus!
