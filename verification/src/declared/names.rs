//! What mentions a name and which structs hold settings, stated over texts and files.

use vstd::prelude::*;

use crate::declared::laws::{a_manifest_has_the_files_nearest_to_it, is_nearest};
use crate::declared::orphans::PassView;
use crate::declared::scope::{scope_of, test_side};
use crate::declared::side::{refs_in, SideView};
use crate::declared::structs::{cands_in, cands_scope, cands_upto, format_from, no_bin, reads_upto, value_from};
use crate::declared::words::{bounded, mention_from, mention_line, mentions, word_from};
use crate::names::no_refs;
use crate::patterns::pattern_hit;
use crate::text::{find_from, find_is_first, lines_of, stands_at, Chars};

verus! {

// ---------- mentions ----------

/// A character of a word.
pub open spec fn in_word(c: char) -> bool {
    'a' <= c <= 'z' || 'A' <= c <= 'Z' || '0' <= c <= '9' || c == '_' || c == '-'
}

/// A name stands at a place as a word of its own.
pub open spec fn is_word_at(s: Chars, name: Chars, at: int) -> bool {
    &&& 0 <= at && at + name.len() <= s.len()
    &&& s.subrange(at, at + name.len()) == name
    &&& at == 0 || !in_word(s[at - 1])
    &&& at + name.len() == s.len() || !in_word(s[at + name.len()])
}

proof fn word_is_found(s: Chars, name: Chars, from: int, at: int)
    requires
        name.len() > 0,
        forall|i: int| 0 <= i < name.len() ==> in_word(#[trigger] name[i]),
        0 <= from <= at,
        is_word_at(s, name, at),
    ensures
        word_from(s, name, from) is Some,
    decreases s.len() - from,
{
    find_is_first(s, name, from);
    first_stands(s, name, from, at);
    let p = find_from(s, name, from)->0;
    let end = p + name.len();
    if !bounded(s, p, end) {
        assert(end <= at) by {
            if p < at < end {
                assert(s.subrange(p, end)[at - 1 - p] == s[at - 1]);
                assert(in_word(name[at - 1 - p]));
            }
        }
        word_is_found(s, name, end, at);
    }
}

proof fn first_stands(s: Chars, name: Chars, from: int, at: int)
    requires
        0 <= from <= at,
        stands_at(s, name, at),
    ensures
        find_from(s, name, from) matches Some(p) && from <= p <= at && stands_at(s, name, p),
    decreases at - from,
{
    if !stands_at(s, name, from) {
        first_stands(s, name, from + 1, at);
    }
}

proof fn found_is_word(s: Chars, name: Chars, from: int)
    requires
        0 <= from,
    ensures
        word_from(s, name, from) matches Some(at) ==> is_word_at(s, name, at),
    decreases s.len() - from,
{
    if let Some(p) = find_from(s, name, from) {
        find_stands(s, name, from);
        let end = p + name.len();
        if !bounded(s, p, end) && from < end <= s.len() {
            found_is_word(s, name, end);
        }
    }
}

proof fn find_stands(s: Chars, name: Chars, from: int)
    requires
        0 <= from,
    ensures
        find_from(s, name, from) matches Some(p) ==> from <= p && stands_at(s, name, p),
    decreases s.len() + 1 - from,
{
    if from + name.len() <= s.len() && !stands_at(s, name, from) {
        find_stands(s, name, from + 1);
    }
}

/// A text mentions a name where it stands in it as a word of its own, and nowhere else.
pub proof fn a_mention_is_a_word_of_its_own(s: Chars, name: Chars)
    requires
        name.len() > 0,
        forall|i: int| 0 <= i < name.len() ==> in_word(#[trigger] name[i]),
    ensures
        mentions(s, name) <==> exists|at: int| #[trigger] is_word_at(s, name, at),
{
    found_is_word(s, name, 0);
    if exists|at: int| #[trigger] is_word_at(s, name, at) {
        let at = choose|at: int| #[trigger] is_word_at(s, name, at);
        word_is_found(s, name, 0, at);
    }
}

proof fn line_is_found(list: Seq<Chars>, key: Chars, ident: Chars, k: int, at: int)
    requires
        0 <= k <= at < list.len() <= usize::MAX,
        mentions(list[at], key) || mentions(list[at], ident),
        forall|j: int| k <= j < at ==> !mentions(#[trigger] list[j], key) && !mentions(list[j], ident),
    ensures
        mention_line(list, key, ident, k) == Some((at + 1) as usize),
    decreases at - k,
{
    if k < at {
        line_is_found(list, key, ident, k + 1, at);
    }
}

/// A dependency is mentioned in the docs on the first line of a page that has its name or what code
/// calls it.
pub proof fn the_first_mention_is_found(docs: Seq<(Chars, Chars)>, key: Chars, ident: Chars, at: int)
    requires
        docs.len() > 0,
        0 <= at < lines_of(docs[0].1).len() <= usize::MAX,
        mentions(lines_of(docs[0].1)[at], key) || mentions(lines_of(docs[0].1)[at], ident),
        forall|j: int|
            0 <= j < at ==> !mentions(#[trigger] lines_of(docs[0].1)[j], key) && !mentions(lines_of(docs[0].1)[j], ident),
    ensures
        mention_from(docs, key, ident, 0) == Some((docs[0].0, (at + 1) as usize)),
{
    line_is_found(lines_of(docs[0].1), key, ident, 0, at);
}

// ---------- structs of settings ----------

proof fn format_is_found(sides: Seq<SideView>, name: Chars, k: int, i: int, x: int)
    requires
        0 <= k <= i < sides.len(),
        sides[i].rust,
        0 <= x < sides[i].consumed_types.len(),
        sides[i].consumed_types[x].0 == name,
    ensures
        format_from(sides, name, k) is Some,
    decreases i - k,
{
    if k == i {
        value_is_found(sides[i].consumed_types, name, 0, x);
    } else if !(sides[k].rust && value_from(sides[k].consumed_types, name, 0) is Some) {
        format_is_found(sides, name, k + 1, i, x);
    }
}

proof fn value_is_found(list: Seq<(Chars, Chars)>, name: Chars, k: int, x: int)
    requires
        0 <= k <= x < list.len(),
        list[x].0 == name,
    ensures
        value_from(list, name, k) is Some,
    decreases x - k,
{
    if k < x && list[k].0 != name {
        value_is_found(list, name, k + 1, x);
    }
}

/// A type that some file reads from another has a format.
pub proof fn a_consumed_type_has_a_format(sides: Seq<SideView>, name: Chars, i: int, x: int)
    requires
        0 <= i < sides.len(),
        sides[i].rust,
        0 <= x < sides[i].consumed_types.len(),
        sides[i].consumed_types[x].0 == name,
    ensures
        format_from(sides, name, 0) is Some,
{
    format_is_found(sides, name, 0, i, x);
}

/// A struct holds settings: it is read in a format of settings, stands in a file of settings, or is
/// named like one.
pub open spec fn holds_settings(p: PassView, path: Chars, name: Chars) -> bool {
    ||| format_from(p.sides, name, 0) matches Some(f) && p.cfg.config_formats.deep_view().contains(f)
    ||| pattern_hit(p.cfg.config_file_regex@, false, path)
    ||| pattern_hit(p.cfg.config_struct_regex@, false, name)
}

proof fn cand_is_in(p: PassView, i: usize, n: int, k: int)
    requires
        0 <= k < n <= usize::MAX,
        !p.sides[i as int].structs[k].in_test,
        holds_settings(p, p.sides[i as int].path, p.sides[i as int].structs[k].name),
    ensures
        cands_in(p, i, n).contains((i, k as usize)),
    decreases n,
{
    let before = cands_in(p, i, n - 1);
    let all = cands_in(p, i, n);
    if k == n - 1 {
        assert(all[before.len() as int] == (i, k as usize));
    } else {
        cand_is_in(p, i, n - 1, k);
        let x = choose|x: int| 0 <= x < before.len() && before[x] == (i, k as usize);
        assert(all[x] == before[x]);
    }
}

proof fn cand_is_in_scope(p: PassView, scope: Seq<usize>, n: int, x: int, k: int)
    requires
        0 <= x < n <= scope.len(),
        !test_side(p.sides[scope[x] as int], p.tests),
        0 <= k < p.sides[scope[x] as int].structs.len() <= usize::MAX,
        !p.sides[scope[x] as int].structs[k].in_test,
        holds_settings(p, p.sides[scope[x] as int].path, p.sides[scope[x] as int].structs[k].name),
    ensures
        cands_scope(p, scope, n).contains((scope[x], k as usize)),
    decreases n,
{
    let before = cands_scope(p, scope, n - 1);
    let all = cands_scope(p, scope, n);
    let want = (scope[x], k as usize);
    if x == n - 1 {
        let i = scope[x];
        let mine = cands_in(p, i, p.sides[i as int].structs.len() as int);
        cand_is_in(p, i, p.sides[i as int].structs.len() as int, k);
        let y = choose|y: int| 0 <= y < mine.len() && mine[y] == want;
        assert(all[before.len() + y] == mine[y]);
    } else {
        cand_is_in_scope(p, scope, n - 1, x, k);
        let y = choose|y: int| 0 <= y < before.len() && before[y] == want;
        assert(all[y] == before[y]);
    }
}

proof fn cand_is_upto(p: PassView, n: int, i: int, c: (usize, usize))
    requires
        0 <= i < n,
        !no_bin(p, i),
        ({
            let scope = scope_of(p.manifests, p.sides, i);
            cands_scope(p, scope, scope.len() as int).contains(c)
        }),
    ensures
        cands_upto(p, n).0.contains(c),
    decreases n,
{
    let before = cands_upto(p, n - 1).0;
    let all = cands_upto(p, n).0;
    if i == n - 1 {
        let scope = scope_of(p.manifests, p.sides, i);
        let mine = cands_scope(p, scope, scope.len() as int);
        let y = choose|y: int| 0 <= y < mine.len() && mine[y] == c;
        assert(all[before.len() + y] == mine[y]);
    } else {
        cand_is_upto(p, n - 1, i, c);
        let y = choose|y: int| 0 <= y < before.len() && before[y] == c;
        assert(all[y] == before[y]);
    }
}

/// A struct of settings outside tests, in a file of a manifest that has a binary where one is asked
/// for, is looked at.
pub proof fn a_struct_of_settings_is_looked_at(p: PassView, i: int, s: int, k: int)
    requires
        p.sides.len() <= usize::MAX,
        0 <= i < p.manifests.len(),
        !no_bin(p, i),
        0 <= s < p.sides.len(),
        p.sides[s].rust,
        is_nearest(p.manifests, p.sides[s].path, i),
        !p.sides[s].test_file,
        !p.tests.contains(p.sides[s].path),
        0 <= k < p.sides[s].structs.len() <= usize::MAX,
        !p.sides[s].structs[k].in_test,
        holds_settings(p, p.sides[s].path, p.sides[s].structs[k].name),
    ensures
        cands_upto(p, p.manifests.len() as int).0.contains((s as usize, k as usize)),
{
    let scope = scope_of(p.manifests, p.sides, i);
    a_manifest_has_the_files_nearest_to_it(p.manifests, p.sides, i, s);
    let x = choose|x: int| 0 <= x < scope.len() && scope[x] == s as usize;
    cand_is_in_scope(p, scope, scope.len() as int, x, k);
    cand_is_upto(p, p.manifests.len() as int, i, (s as usize, k as usize));
}

proof fn read_is_counted(sides: Seq<SideView>, tests: Seq<Chars>, name: Chars, n: int, k: int)
    requires
        0 <= k < n,
        sides[k].rust,
        refs_in(sides[k].field_reads, name) != no_refs(),
    ensures
        reads_upto(sides, tests, name, n) != no_refs(),
        !test_side(sides[k], tests) && refs_in(sides[k].field_reads, name).prod > 0 ==> reads_upto(sides, tests, name, n).prod > 0,
        test_side(sides[k], tests) ==> reads_upto(sides, tests, name, n).test > 0,
    decreases n,
{
    if k < n - 1 {
        read_is_counted(sides, tests, name, n - 1, k);
    }
}

/// A field that a Rust file reads is read: in tests where the file is one, else as it reads it.
pub proof fn a_read_is_counted_where_it_stands(sides: Seq<SideView>, tests: Seq<Chars>, name: Chars, k: int)
    requires
        0 <= k < sides.len(),
        sides[k].rust,
        refs_in(sides[k].field_reads, name) != no_refs(),
    ensures
        ({
            let r = reads_upto(sides, tests, name, sides.len() as int);
            let tested = sides[k].test_file || tests.contains(sides[k].path);
            &&& r.prod > 0 || r.test > 0
            &&& !tested && refs_in(sides[k].field_reads, name).prod > 0 ==> r.prod > 0
            &&& tested ==> r.test > 0
        }),
{
    read_is_counted(sides, tests, name, sides.len() as int, k);
}

} // verus!
