//! Families: the functions that clones connect.

use vstd::prelude::*;

use crate::clones::compare::{compare, compared, copy_loc, Comparison, ComparisonView};
use crate::clones::detect::{CloneKind, ClonePair, Loc, LocView, PairView};
use crate::clones::runs::{all_ok, views};
use crate::clones::tokens::{Token, Tokens, TokensView};
use crate::discover::SourceFile;
use crate::sorting::{sort_rows, sorted_rows, sorted_rows_are_sorted, sorted_rows_hold, Row};
use crate::text::{before, less, lines_of, put, same, Chars};
use crate::units::{tree_units, unit_nodes};

verus! {

/// Functions that clones connect.
pub struct CloneFamily {
    pub members: Vec<Loc>,
    pub pair_count: usize,
    /// The pairs themselves; comparisons are of the functions round them.
    pub matches: Vec<ClonePair>,
    pub max_shared_tokens: usize,
    pub comparisons: Vec<Comparison>,
    pub comparisons_omitted: usize,
}

/// A [`CloneFamily`] by its contents.
pub struct FamilyView {
    pub members: Seq<LocView>,
    pub pair_count: nat,
    pub matches: Seq<PairView>,
    pub max_shared_tokens: usize,
    pub comparisons: Seq<ComparisonView>,
    pub comparisons_omitted: nat,
}

impl DeepView for CloneFamily {
    type V = FamilyView;

    open spec fn deep_view(&self) -> FamilyView {
        FamilyView {
            members: self.members.deep_view(),
            pair_count: self.pair_count as nat,
            matches: self.matches.deep_view(),
            max_shared_tokens: self.max_shared_tokens,
            comparisons: self.comparisons.deep_view(),
            comparisons_omitted: self.comparisons_omitted as nat,
        }
    }
}

/// The most comparisons of a family.
pub const MAX_COMPARISONS: usize = 12;

// ---------- scopes ----------

/// The functions of a file.
pub open spec fn unit_locs(f: SourceFile, t: TokensView) -> Seq<LocView> {
    match t.tree {
        Some(nodes) => {
            let units = tree_units(nodes, f.lang);
            Seq::new(
                units.len(),
                |i: int|
                    LocView {
                        file: f.path@,
                        start_line: nodes[units[i].node as int].line,
                        end_line: nodes[units[i].node as int].end_line,
                        symbol: Some(units[i].name),
                    },
            )
        },
        None => Seq::empty(),
    }
}

/// How many lines past its first a stretch has.
pub open spec fn width(l: LocView) -> int {
    l.end_line - l.start_line
}

/// A function holds a stretch.
pub open spec fn encloses(u: LocView, side: LocView) -> bool {
    u.start_line <= side.start_line && u.end_line >= side.end_line
}

/// The narrowest of the first `n` functions that holds a stretch.
pub open spec fn narrowest(units: Seq<LocView>, side: LocView, n: int) -> Option<int>
    decreases n,
{
    if n <= 0 {
        None
    } else {
        let was = narrowest(units, side, n - 1);
        if !encloses(units[n - 1], side) {
            was
        } else {
            match was {
                Some(w) => if width(units[n - 1]) < width(units[w]) {
                    Some(n - 1)
                } else {
                    was
                },
                None => Some(n - 1),
            }
        }
    }
}

/// The first token, from `i` on, on a line or later.
pub open spec fn line_at(list: Seq<Token>, line: usize, i: int) -> int
    decreases list.len() - i,
{
    if 0 <= i < list.len() && list[i].line < line {
        line_at(list, line, i + 1)
    } else {
        i
    }
}

/// The first token, from `i` on, past a line.
pub open spec fn line_past(list: Seq<Token>, line: usize, i: int) -> int
    decreases list.len() - i,
{
    if 0 <= i < list.len() && list[i].line <= line {
        line_past(list, line, i + 1)
    } else {
        i
    }
}

/// How many of the tokens from `lo` to `hi` a function holds.
pub open spec fn held(u: LocView, list: Seq<Token>, lo: int, hi: int) -> int {
    let s = line_at(list, u.start_line, 0);
    let e = line_past(list, u.end_line, 0);
    let from = if s > lo {
        s
    } else {
        lo
    };
    let to = if e < hi {
        e
    } else {
        hi
    };
    if to > from {
        to - from
    } else {
        0
    }
}

/// A function holds most of the tokens from `lo` to `hi`.
pub open spec fn holds_most(u: LocView, list: Seq<Token>, lo: int, hi: int) -> bool {
    held(u, list, lo, hi) > 0 && held(u, list, lo, hi) * 2 > hi - lo
}

/// The one of the first `n` functions that holds the most of the tokens, and most of them; of equal
/// ones the narrowest, and of those the last.
pub open spec fn fullest(units: Seq<LocView>, list: Seq<Token>, lo: int, hi: int, n: int) -> Option<int>
    decreases n,
{
    if n <= 0 {
        None
    } else {
        let was = fullest(units, list, lo, hi, n - 1);
        let u = units[n - 1];
        if !holds_most(u, list, lo, hi) {
            was
        } else {
            match was {
                Some(w) => {
                    let h = held(u, list, lo, hi);
                    let k = held(units[w], list, lo, hi);
                    if h > k || (h == k && width(u) <= width(units[w])) {
                        Some(n - 1)
                    } else {
                        was
                    }
                },
                None => Some(n - 1),
            }
        }
    }
}

/// The function that a stretch is compared by: the narrowest that holds it, or the one that holds most
/// of its tokens, since a run may bleed into the next declaration; else the stretch itself.
pub open spec fn scope_of(side: LocView, units: Seq<LocView>, list: Seq<Token>) -> LocView {
    let n = units.len() as int;
    match narrowest(units, side, n) {
        Some(i) => units[i],
        None => match fullest(units, list, line_at(list, side.start_line, 0), line_past(list, side.end_line, 0), n) {
            Some(i) => units[i],
            None => side,
        },
    }
}

fn find_units(f: &SourceFile, t: &Tokens) -> (out: Vec<Loc>)
    requires
        t.ok(),
    ensures
        out.deep_view() == unit_locs(*f, t@),
        forall|i: int| 0 <= i < out.len() ==> (#[trigger] out@[i]).start_line <= out@[i].end_line,
{
    let mut out: Vec<Loc> = Vec::new();
    assert(out.deep_view() =~= Seq::<LocView>::empty());
    let tree = match &t.tree {
        Some(tree) => tree,
        None => return out,
    };
    let units = unit_nodes(tree, f.lang);
    let ghost uv = units.deep_view();
    let ghost want = unit_locs(*f, t@);
    let mut i: usize = 0;
    while i < units.len()
        invariant
            i <= units.len(),
            i == out.len(),
            tree.ok(),
            t@.tree == Some(tree@),
            uv == units.deep_view(),
            uv == tree_units(tree@, f.lang),
            want == unit_locs(*f, t@),
            forall|i: int| 0 <= i < units.len() ==> (#[trigger] units@[i]).node < tree@.len(),
            forall|i: int| 0 <= i < out.len() ==> (#[trigger] out@[i]).start_line <= out@[i].end_line,
            forall|j: int| 0 <= j < i ==> (#[trigger] out@[j]).deep_view() == want[j],
        decreases units.len() - i,
    {
        assert(uv[i as int] == units@[i as int].deep_view());
        assert(units@[i as int].node < tree@.len());
        let n: usize = units[i].node;
        assert(tree@[n as int] == tree.nodes@[n as int].deep_view());
        assert(crate::tree::node_ok(tree@, n as int));
        let x = &tree.nodes[n];
        out.push(
            Loc {
                file: f.path.as_str().to_owned(),
                start_line: x.line,
                end_line: x.end_line,
                symbol: Some(units[i].name.as_str().to_owned()),
            },
        );
        assert(out@[i as int].deep_view() == want[i as int]);
        i = i + 1;
    }
    assert(out.deep_view() =~= want);
    out
}

fn find_line(t: &Tokens, line: usize) -> (r: usize)
    ensures
        r == line_at(t.list@, line, 0),
        r <= t.list.len(),
{
    let mut r: usize = 0;
    while r < t.list.len() && t.list[r].line < line
        invariant
            r <= t.list.len(),
            line_at(t.list@, line, 0) == line_at(t.list@, line, r as int),
        decreases t.list.len() - r,
    {
        r = r + 1;
    }
    r
}

fn find_past(t: &Tokens, line: usize) -> (r: usize)
    ensures
        r == line_past(t.list@, line, 0),
        r <= t.list.len(),
{
    let mut r: usize = 0;
    while r < t.list.len() && t.list[r].line <= line
        invariant
            r <= t.list.len(),
            line_past(t.list@, line, 0) == line_past(t.list@, line, r as int),
        decreases t.list.len() - r,
    {
        r = r + 1;
    }
    r
}

fn count_held(u: &Loc, t: &Tokens, lo: usize, hi: usize) -> (r: usize)
    ensures
        r == held(u.deep_view(), t.list@, lo as int, hi as int),
{
    let s: usize = find_line(t, u.start_line);
    let e: usize = find_past(t, u.end_line);
    let from: usize = if s > lo {
        s
    } else {
        lo
    };
    let to: usize = if e < hi {
        e
    } else {
        hi
    };
    if to > from {
        to - from
    } else {
        0
    }
}

/// The function that a stretch is compared by.
pub fn scope(side: &Loc, units: &Vec<Loc>, t: &Tokens) -> (r: Loc)
    requires
        forall|i: int| 0 <= i < units.len() ==> (#[trigger] units@[i]).start_line <= units@[i].end_line,
    ensures
        r.deep_view() == scope_of(side.deep_view(), units.deep_view(), t.list@),
{
    let ghost uv = units.deep_view();
    let ghost sv = side.deep_view();
    let mut best: Option<usize> = None;
    let mut n: usize = 0;
    while n < units.len()
        invariant
            n <= units.len(),
            uv == units.deep_view(),
            sv == side.deep_view(),
            forall|i: int| 0 <= i < units.len() ==> (#[trigger] units@[i]).start_line <= units@[i].end_line,
            best matches Some(b) ==> b < n,
            crate::text::as_int(best) == narrowest(uv, sv, n as int),
        decreases units.len() - n,
    {
        let u = &units[n];
        assert(uv[n as int] == u.deep_view());
        if u.start_line <= side.start_line && u.end_line >= side.end_line {
            match best {
                Some(b) => {
                    assert(uv[b as int] == units@[b as int].deep_view());
                    assert(units@[n as int].start_line <= units@[n as int].end_line);
                    assert(units@[b as int].start_line <= units@[b as int].end_line);
                    if u.end_line - u.start_line < units[b].end_line - units[b].start_line {
                        best = Some(n);
                    }
                },
                None => {
                    best = Some(n);
                },
            }
        }
        n = n + 1;
    }
    if let Some(b) = best {
        assert(uv[b as int] == units@[b as int].deep_view());
        return copy_loc(&units[b]);
    }
    let lo: usize = find_line(t, side.start_line);
    let hi: usize = find_past(t, side.end_line);
    let mut best: Option<(usize, usize)> = None;
    let mut n: usize = 0;
    while n < units.len()
        invariant
            n <= units.len(),
            uv == units.deep_view(),
            forall|i: int| 0 <= i < units.len() ==> (#[trigger] units@[i]).start_line <= units@[i].end_line,
            best matches Some(b) ==> b.0 < n && b.1 == held(uv[b.0 as int], t.list@, lo as int, hi as int),
            (match best {
                Some(b) => Some(b.0 as int),
                None => None,
            }) == fullest(uv, t.list@, lo as int, hi as int, n as int),
        decreases units.len() - n,
    {
        let u = &units[n];
        assert(uv[n as int] == u.deep_view());
        let h: usize = count_held(u, t, lo, hi);
        let most = h > 0 && (hi < lo || h > hi - lo || h > (hi - lo) - h);
        assert(most == holds_most(uv[n as int], t.list@, lo as int, hi as int));
        if most {
            match best {
                Some(b) => {
                    assert(uv[b.0 as int] == units@[b.0 as int].deep_view());
                    assert(units@[n as int].start_line <= units@[n as int].end_line);
                    assert(units@[b.0 as int].start_line <= units@[b.0 as int].end_line);
                    if h > b.1 || (h == b.1 && u.end_line - u.start_line <= units[b.0].end_line - units[b.0].start_line) {
                        best = Some((n, h));
                    }
                },
                None => {
                    best = Some((n, h));
                },
            }
        }
        n = n + 1;
    }
    match best {
        Some(b) => {
            assert(uv[b.0 as int] == units@[b.0 as int].deep_view());
            copy_loc(&units[b.0])
        },
        None => copy_loc(side),
    }
}

// ---------- links ----------

/// Two members that a pair connects.
#[derive(Clone, Copy)]
pub struct Edge {
    pub a: usize,
    pub b: usize,
    pub tokens: usize,
    pub pair: usize,
}

/// The members met so far, the family each belongs to, and the edges between them.
pub struct LinkView {
    pub members: Seq<LocView>,
    pub labels: Seq<usize>,
    pub edges: Seq<Edge>,
}

/// The same stretch.
pub open spec fn same_loc(x: LocView, y: LocView) -> bool {
    x.file == y.file && x.start_line == y.start_line && x.end_line == y.end_line
}

/// The first member, from `i` on, that is a stretch.
pub open spec fn member_at(members: Seq<LocView>, l: LocView, i: int) -> Option<int>
    decreases members.len() - i,
{
    if i < 0 || i >= members.len() {
        None
    } else if same_loc(members[i], l) {
        Some(i)
    } else {
        member_at(members, l, i + 1)
    }
}

/// The number of a member, which is the next one where it is new.
pub open spec fn id_of(s: LinkView, l: LocView) -> int {
    match member_at(s.members, l, 0) {
        Some(i) => i,
        None => s.members.len() as int,
    }
}

/// The links with a member, which is a family of its own where it is new.
pub open spec fn with_loc(s: LinkView, l: LocView) -> LinkView {
    if member_at(s.members, l, 0) is Some {
        s
    } else {
        LinkView { members: s.members.push(l), labels: s.labels.push(s.members.len() as usize), edges: s.edges }
    }
}

/// Two families become one.
pub open spec fn joined_labels(labels: Seq<usize>, from: usize, to: usize) -> Seq<usize> {
    Seq::new(
        labels.len(),
        |i: int|
            if labels[i] == from {
                to
            } else {
                labels[i]
            },
    )
}

/// The first file, from `i` on, of a path.
pub open spec fn file_at(files: Seq<SourceFile>, path: Chars, i: int) -> Option<int>
    decreases files.len() - i,
{
    if i < 0 || i >= files.len() {
        None
    } else if files[i].path@ == path {
        Some(i)
    } else {
        file_at(files, path, i + 1)
    }
}

/// The number of a path's file.
pub open spec fn file_of(files: Seq<SourceFile>, path: Chars) -> int {
    match file_at(files, path, 0) {
        Some(i) => i,
        None => 0,
    }
}

/// Both sides of every pair lie in the files.
pub open spec fn known(pairs: Seq<PairView>, files: Seq<SourceFile>) -> bool {
    forall|i: int|
        0 <= i < pairs.len() ==> file_at(files, (#[trigger] pairs[i]).a.file, 0) is Some && file_at(files, pairs[i].b.file, 0) is Some
}

/// The scope of a side of a pair.
pub open spec fn side_scope(files: Seq<SourceFile>, toks: Seq<TokensView>, side: LocView) -> LocView {
    let f = file_of(files, side.file);
    scope_of(side, unit_locs(files[f], toks[f]), toks[f].list)
}

/// What a pair connects: the functions round its sides, or the sides themselves within one function.
pub open spec fn ends_of(files: Seq<SourceFile>, toks: Seq<TokensView>, p: PairView) -> (LocView, LocView) {
    let a = side_scope(files, toks, p.a);
    let b = side_scope(files, toks, p.b);
    if same_loc(a, b) {
        (p.a, p.b)
    } else {
        (a, b)
    }
}

/// The links with one more pair.
pub open spec fn with_pair(s: LinkView, files: Seq<SourceFile>, toks: Seq<TokensView>, p: PairView, n: usize) -> LinkView {
    if p.kind != CloneKind::Logic {
        s
    } else {
        let (x, y) = ends_of(files, toks, p);
        let a = id_of(s, x);
        let s1 = with_loc(s, x);
        let b = id_of(s1, y);
        let s2 = with_loc(s1, y);
        if a == b {
            s2
        } else {
            LinkView {
                members: s2.members,
                labels: joined_labels(s2.labels, s2.labels[b], s2.labels[a]),
                edges: s2.edges.push(Edge { a: a as usize, b: b as usize, tokens: p.tokens, pair: n }),
            }
        }
    }
}

/// The links of the first `n` pairs.
pub open spec fn links_of(files: Seq<SourceFile>, toks: Seq<TokensView>, pairs: Seq<PairView>, n: int) -> LinkView
    decreases n,
{
    if n <= 0 {
        LinkView { members: Seq::empty(), labels: Seq::empty(), edges: Seq::empty() }
    } else {
        with_pair(links_of(files, toks, pairs, n - 1), files, toks, pairs[n - 1], (n - 1) as usize)
    }
}

/// Members, their families and edges fit together: a label and the ends of an edge are members, and
/// both ends of an edge are in one family.
pub open spec fn links_ok(s: LinkView, files: Seq<SourceFile>, pairs: int) -> bool {
    &&& s.labels.len() == s.members.len()
    &&& forall|i: int| 0 <= i < s.labels.len() ==> (#[trigger] s.labels[i]) < s.members.len()
    &&& forall|i: int|
        0 <= i < s.edges.len() ==> (#[trigger] s.edges[i]).a < s.members.len() && s.edges[i].b < s.members.len()
            && s.edges[i].pair < pairs && s.labels[s.edges[i].a as int] == s.labels[s.edges[i].b as int]
    &&& forall|i: int| 0 <= i < s.members.len() ==> file_at(files, (#[trigger] s.members[i]).file, 0) is Some
}

proof fn found_member(members: Seq<LocView>, l: LocView, i: int)
    requires
        0 <= i,
    ensures
        member_at(members, l, i) matches Some(j) ==> i <= j < members.len() && same_loc(members[j], l),
    decreases members.len() - i,
{
    if i < members.len() && !same_loc(members[i], l) {
        found_member(members, l, i + 1);
    }
}

proof fn found_file(files: Seq<SourceFile>, path: Chars, i: int)
    requires
        0 <= i,
    ensures
        file_at(files, path, i) matches Some(j) ==> i <= j < files.len() && files[j].path@ == path,
    decreases files.len() - i,
{
    if i < files.len() && files[i].path@ != path {
        found_file(files, path, i + 1);
    }
}

proof fn narrowest_is_one(units: Seq<LocView>, side: LocView, n: int)
    requires
        n <= units.len(),
    ensures
        narrowest(units, side, n) matches Some(i) ==> 0 <= i < n,
    decreases n,
{
    if n > 0 {
        narrowest_is_one(units, side, n - 1);
    }
}

proof fn fullest_is_one(units: Seq<LocView>, list: Seq<Token>, lo: int, hi: int, n: int)
    requires
        n <= units.len(),
    ensures
        fullest(units, list, lo, hi, n) matches Some(i) ==> 0 <= i < n,
    decreases n,
{
    if n > 0 {
        fullest_is_one(units, list, lo, hi, n - 1);
    }
}

proof fn scope_stays_in_file(files: Seq<SourceFile>, toks: Seq<TokensView>, side: LocView)
    requires
        file_at(files, side.file, 0) is Some,
    ensures
        side_scope(files, toks, side).file == side.file,
{
    found_file(files, side.file, 0);
    let f = file_of(files, side.file);
    let units = unit_locs(files[f], toks[f]);
    let list = toks[f].list;
    narrowest_is_one(units, side, units.len() as int);
    fullest_is_one(units, list, line_at(list, side.start_line, 0), line_past(list, side.end_line, 0), units.len() as int);
}

proof fn loc_keeps_links(s: LinkView, l: LocView, files: Seq<SourceFile>, pairs: int)
    requires
        links_ok(s, files, pairs),
        file_at(files, l.file, 0) is Some,
        s.members.len() < usize::MAX,
    ensures
        links_ok(with_loc(s, l), files, pairs),
        0 <= id_of(s, l) < with_loc(s, l).members.len(),
        with_loc(s, l).members.len() <= s.members.len() + 1,
{
    found_member(s.members, l, 0);
    let t = with_loc(s, l);
    if member_at(s.members, l, 0) is None {
        assert forall|i: int| 0 <= i < t.edges.len() implies (#[trigger] t.edges[i]).a < t.members.len() && t.edges[i].b
            < t.members.len() && t.edges[i].pair < pairs && t.labels[t.edges[i].a as int] == t.labels[t.edges[i].b as int] by {
            assert(s.edges[i].a < s.members.len());
            assert(t.labels[s.edges[i].a as int] == s.labels[s.edges[i].a as int]);
            assert(t.labels[s.edges[i].b as int] == s.labels[s.edges[i].b as int]);
        }
        assert forall|i: int| 0 <= i < t.members.len() implies file_at(files, (#[trigger] t.members[i]).file, 0) is Some by {
            if i < s.members.len() {
                assert(t.members[i] == s.members[i]);
            }
        }
        assert forall|i: int| 0 <= i < t.labels.len() implies (#[trigger] t.labels[i]) < t.members.len() by {
            if i < s.labels.len() {
                assert(t.labels[i] == s.labels[i]);
            }
        }
    }
}

/// The pairs connect functions into families: both ends of every edge are in one family.
pub proof fn edges_stay_in_one_family(files: Seq<SourceFile>, toks: Seq<TokensView>, pairs: Seq<PairView>, n: int)
    requires
        0 <= n <= pairs.len(),
        2 * n < usize::MAX,
        known(pairs, files),
    ensures
        links_ok(links_of(files, toks, pairs, n), files, n),
        links_of(files, toks, pairs, n).members.len() <= 2 * n,
    decreases n,
{
    if n > 0 {
        edges_stay_in_one_family(files, toks, pairs, n - 1);
        let s = links_of(files, toks, pairs, n - 1);
        let p = pairs[n - 1];
        assert forall|i: int| 0 <= i < s.edges.len() implies (#[trigger] s.edges[i]).a < s.members.len() && s.edges[i].b
            < s.members.len() && s.edges[i].pair < n && s.labels[s.edges[i].a as int] == s.labels[s.edges[i].b as int] by {
        }
        assert(links_ok(s, files, n));
        if p.kind == CloneKind::Logic {
            scope_stays_in_file(files, toks, p.a);
            scope_stays_in_file(files, toks, p.b);
            let (x, y) = ends_of(files, toks, p);
            loc_keeps_links(s, x, files, n);
            let s1 = with_loc(s, x);
            loc_keeps_links(s1, y, files, n);
            let s2 = with_loc(s1, y);
            let a = id_of(s, x);
            let b = id_of(s1, y);
            if a != b {
                let t = links_of(files, toks, pairs, n);
                assert forall|i: int| 0 <= i < t.edges.len() implies (#[trigger] t.edges[i]).a < t.members.len() && t.edges[i].b
                    < t.members.len() && t.edges[i].pair < n && t.labels[t.edges[i].a as int] == t.labels[t.edges[i].b as int] by {
                    if i < s2.edges.len() {
                        assert(t.edges[i] == s2.edges[i]);
                        assert(s2.labels[s2.edges[i].a as int] == s2.labels[s2.edges[i].b as int]);
                    }
                }
                assert forall|i: int| 0 <= i < t.labels.len() implies (#[trigger] t.labels[i]) < t.members.len() by {
                    assert(s2.labels[i] < s2.members.len());
                    assert(s2.labels[a] < s2.members.len());
                }
            }
        }
    }
}

/// Some edge joins two members.
pub open spec fn edge_between(edges: Seq<Edge>, u: int, v: int) -> bool {
    exists|i: int|
        0 <= i < edges.len() && (((#[trigger] edges[i]).a == u && edges[i].b == v) || (edges[i].a == v && edges[i].b == u))
}

/// A chain of members, each joined to the next.
pub open spec fn chain(edges: Seq<Edge>, p: Seq<int>) -> bool {
    p.len() > 0 && forall|k: int| 0 <= k < p.len() - 1 ==> edge_between(edges, #[trigger] p[k], p[k + 1])
}

/// Some chain leads from one member to another.
pub open spec fn chained(edges: Seq<Edge>, u: int, v: int) -> bool {
    exists|p: Seq<int>| #[trigger] chain(edges, p) && p[0] == u && p.last() == v
}

proof fn chain_of_one(edges: Seq<Edge>, u: int)
    ensures
        chained(edges, u, u),
{
    let p = seq![u];
    assert(chain(edges, p) && p[0] == u && p.last() == u);
}

proof fn chain_back(edges: Seq<Edge>, u: int, v: int)
    requires
        chained(edges, u, v),
    ensures
        chained(edges, v, u),
{
    let p = choose|p: Seq<int>| #[trigger] chain(edges, p) && p[0] == u && p.last() == v;
    let q = Seq::new(p.len(), |k: int| p[p.len() - 1 - k]);
    assert forall|k: int| 0 <= k < q.len() - 1 implies edge_between(edges, #[trigger] q[k], q[k + 1]) by {
        let m = p.len() - 2 - k;
        assert(edge_between(edges, p[m], p[m + 1]));
    }
    assert(chain(edges, q) && q[0] == v && q.last() == u);
}

proof fn chain_on(edges: Seq<Edge>, u: int, v: int, w: int)
    requires
        chained(edges, u, v),
        chained(edges, v, w),
    ensures
        chained(edges, u, w),
{
    let p = choose|p: Seq<int>| #[trigger] chain(edges, p) && p[0] == u && p.last() == v;
    let q = choose|q: Seq<int>| #[trigger] chain(edges, q) && q[0] == v && q.last() == w;
    let r = p.drop_last() + q;
    let n = p.len() - 1;
    assert forall|k: int| 0 <= k < r.len() - 1 implies edge_between(edges, #[trigger] r[k], r[k + 1]) by {
        if k < n {
            assert(edge_between(edges, p[k], p[k + 1]));
            assert(r[k] == p[k]);
            assert(r[k + 1] == p[k + 1]);
        } else {
            assert(edge_between(edges, q[k - n], q[k - n + 1]));
        }
    }
    assert(r[0] == u);
    assert(chain(edges, r) && r.last() == w);
}

proof fn chain_stays(edges: Seq<Edge>, e: Edge, u: int, v: int)
    requires
        chained(edges, u, v),
    ensures
        chained(edges.push(e), u, v),
{
    let p = choose|p: Seq<int>| #[trigger] chain(edges, p) && p[0] == u && p.last() == v;
    let more = edges.push(e);
    assert forall|k: int| 0 <= k < p.len() - 1 implies edge_between(more, #[trigger] p[k], p[k + 1]) by {
        assert(edge_between(edges, p[k], p[k + 1]));
        let i = choose|i: int|
            0 <= i < edges.len() && (((#[trigger] edges[i]).a == p[k] && edges[i].b == p[k + 1]) || (edges[i].a == p[k + 1]
                && edges[i].b == p[k]));
        assert(more[i] == edges[i]);
    }
    assert(chain(more, p));
}

/// Members of one family are chained.
spec fn families_chained(s: LinkView) -> bool {
    forall|i: int, j: int|
        0 <= i < s.labels.len() && 0 <= j < s.labels.len() && s.labels[i] == s.labels[j] ==> #[trigger] chained(s.edges, i, j)
}

proof fn loc_keeps_chains(s: LinkView, l: LocView)
    requires
        families_chained(s),
        s.labels.len() == s.members.len(),
        s.members.len() < usize::MAX,
        forall|i: int| 0 <= i < s.labels.len() ==> (#[trigger] s.labels[i]) < s.members.len(),
    ensures
        families_chained(with_loc(s, l)),
{
    let t = with_loc(s, l);
    if member_at(s.members, l, 0) is None {
        let n = s.members.len() as int;
        assert forall|i: int, j: int| 0 <= i < t.labels.len() && 0 <= j < t.labels.len() && t.labels[i] == t.labels[j] implies #[trigger] chained(
            t.edges,
            i,
            j,
        ) by {
            if i < n {
                assert(t.labels[i] == s.labels[i]);
            }
            if j < n {
                assert(t.labels[j] == s.labels[j]);
            }
            if i == n && j == n {
                chain_of_one(t.edges, n);
            } else {
                assert(i < n && j < n);
                assert(chained(s.edges, i, j));
            }
        }
    }
}

proof fn labels_are_chained(files: Seq<SourceFile>, toks: Seq<TokensView>, pairs: Seq<PairView>, n: int)
    requires
        0 <= n <= pairs.len(),
        2 * n < usize::MAX,
        known(pairs, files),
    ensures
        families_chained(links_of(files, toks, pairs, n)),
    decreases n,
{
    if n > 0 {
        labels_are_chained(files, toks, pairs, n - 1);
        edges_stay_in_one_family(files, toks, pairs, n - 1);
        let s = links_of(files, toks, pairs, n - 1);
        let p = pairs[n - 1];
        if p.kind == CloneKind::Logic {
            scope_stays_in_file(files, toks, p.a);
            scope_stays_in_file(files, toks, p.b);
            let (x, y) = ends_of(files, toks, p);
            let a = id_of(s, x);
            let s1 = with_loc(s, x);
            let b = id_of(s1, y);
            let s2 = with_loc(s1, y);
            loc_keeps_links(s, x, files, n - 1);
            loc_keeps_chains(s, x);
            loc_keeps_links(s1, y, files, n - 1);
            loc_keeps_chains(s1, y);
            if a != b {
                let t = links_of(files, toks, pairs, n);
                let e = Edge { a: a as usize, b: b as usize, tokens: p.tokens, pair: (n - 1) as usize };
                assert(t.edges == s2.edges.push(e));
                assert(t.edges[s2.edges.len() as int] == e);
                assert(edge_between(t.edges, a, b));
                let link = seq![a, b];
                assert(chain(t.edges, link) && link[0] == a && link.last() == b);
                assert(chained(t.edges, a, b));
                let (la, lb) = (s2.labels[a], s2.labels[b]);
                assert forall|i: int, j: int| 0 <= i < t.labels.len() && 0 <= j < t.labels.len() && t.labels[i] == t.labels[j] implies #[trigger] chained(
                    t.edges,
                    i,
                    j,
                ) by {
                    if s2.labels[i] == s2.labels[j] {
                        assert(chained(s2.edges, i, j));
                        chain_stays(s2.edges, e, i, j);
                    } else if s2.labels[i] == lb {
                        assert(s2.labels[j] == la);
                        assert(chained(s2.edges, i, b) && chained(s2.edges, a, j));
                        chain_stays(s2.edges, e, i, b);
                        chain_stays(s2.edges, e, a, j);
                        chain_back(t.edges, a, b);
                        chain_on(t.edges, i, b, a);
                        chain_on(t.edges, i, a, j);
                    } else {
                        assert(s2.labels[i] == la && s2.labels[j] == lb);
                        assert(chained(s2.edges, i, a) && chained(s2.edges, b, j));
                        chain_stays(s2.edges, e, i, a);
                        chain_stays(s2.edges, e, b, j);
                        chain_on(t.edges, i, a, b);
                        chain_on(t.edges, i, b, j);
                    }
                }
            }
        }
    }
}

proof fn a_chain_keeps_its_label(s: LinkView, files: Seq<SourceFile>, pairs: int, p: Seq<int>, k: int)
    requires
        links_ok(s, files, pairs),
        chain(s.edges, p),
        0 <= k < p.len(),
    ensures
        s.labels[p[0]] == s.labels[p[k]],
    decreases k,
{
    if k > 0 {
        a_chain_keeps_its_label(s, files, pairs, p, k - 1);
        assert(edge_between(s.edges, p[k - 1], p[k - 1 + 1]));
        let i = choose|i: int|
            0 <= i < s.edges.len() && (((#[trigger] s.edges[i]).a == p[k - 1] && s.edges[i].b == p[k]) || (s.edges[i].a == p[k]
                && s.edges[i].b == p[k - 1]));
        assert(s.labels[s.edges[i].a as int] == s.labels[s.edges[i].b as int]);
    }
}

/// Families are what the pairs connect: two members are in one family exactly where a chain of edges
/// leads from one to the other.
pub proof fn families_are_connected(files: Seq<SourceFile>, toks: Seq<TokensView>, pairs: Seq<PairView>, n: int, i: int, j: int)
    requires
        0 <= n <= pairs.len(),
        2 * n < usize::MAX,
        known(pairs, files),
        0 <= i < links_of(files, toks, pairs, n).members.len(),
        0 <= j < links_of(files, toks, pairs, n).members.len(),
    ensures
        links_of(files, toks, pairs, n).labels[i] == links_of(files, toks, pairs, n).labels[j] <==> chained(
            links_of(files, toks, pairs, n).edges,
            i,
            j,
        ),
{
    let s = links_of(files, toks, pairs, n);
    edges_stay_in_one_family(files, toks, pairs, n);
    labels_are_chained(files, toks, pairs, n);
    if s.labels[i] == s.labels[j] {
        assert(chained(s.edges, i, j));
    }
    if chained(s.edges, i, j) {
        let p = choose|p: Seq<int>| #[trigger] chain(s.edges, p) && p[0] == i && p.last() == j;
        a_chain_keeps_its_label(s, files, n, p, p.len() - 1);
    }
}

/// The members, their families and the edges between them.
pub struct Links {
    pub members: Vec<Loc>,
    pub labels: Vec<usize>,
    pub edges: Vec<Edge>,
}

impl View for Links {
    type V = LinkView;

    open spec fn view(&self) -> LinkView {
        LinkView { members: self.members.deep_view(), labels: self.labels@, edges: self.edges@ }
    }
}

fn is_same_loc(x: &Loc, y: &Loc) -> (r: bool)
    ensures
        r == same_loc(x.deep_view(), y.deep_view()),
{
    x.start_line == y.start_line && x.end_line == y.end_line && same(x.file.as_str(), y.file.as_str())
}

fn find_file(files: &Vec<SourceFile>, path: &str) -> (r: usize)
    requires
        file_at(files@, path@, 0) is Some,
    ensures
        r == file_of(files@, path@),
        r < files.len(),
{
    let mut i: usize = 0;
    while i < files.len()
        invariant
            i <= files.len(),
            file_at(files@, path@, 0) is Some,
            file_at(files@, path@, 0) == file_at(files@, path@, i as int),
        decreases files.len() - i,
    {
        if same(files[i].path.as_str(), path) {
            return i;
        }
        i = i + 1;
    }
    0
}

impl Links {
    fn add(&mut self, l: Loc) -> (id: usize)
        ensures
            final(self)@ == with_loc(old(self)@, l.deep_view()),
            id == id_of(old(self)@, l.deep_view()),
    {
        let ghost view = self.members.deep_view();
        let ghost lv = l.deep_view();
        let mut i: usize = 0;
        while i < self.members.len()
            invariant
                i <= self.members.len(),
                view == self.members.deep_view(),
                lv == l.deep_view(),
                member_at(view, lv, 0) == member_at(view, lv, i as int),
                self@ == old(self)@,
            decreases self.members.len() - i,
        {
            assert(view[i as int] == self.members@[i as int].deep_view());
            if is_same_loc(&self.members[i], &l) {
                return i;
            }
            i = i + 1;
        }
        let id: usize = self.members.len();
        assert(id == view.len());
        put(&mut self.members, l);
        self.labels.push(id);
        id
    }

    fn join(&mut self, a: usize, b: usize, tokens: usize, pair: usize)
        requires
            a < old(self).labels.len(),
            b < old(self).labels.len(),
        ensures
            final(self)@ == (LinkView {
                members: old(self)@.members,
                labels: joined_labels(old(self)@.labels, old(self)@.labels[b as int], old(self)@.labels[a as int]),
                edges: old(self)@.edges.push(Edge { a, b, tokens, pair }),
            }),
    {
        let to: usize = self.labels[a];
        let from: usize = self.labels[b];
        let ghost was = self.labels@;
        let ghost members = self.members.deep_view();
        let mut i: usize = 0;
        while i < self.labels.len()
            invariant
                i <= self.labels.len(),
                self.labels.len() == was.len(),
                self.members.deep_view() == members,
                self.edges@ == old(self).edges@,
                forall|j: int|
                    0 <= j < was.len() ==> #[trigger] self.labels@[j] == (if j < i && was[j] == from {
                        to
                    } else {
                        was[j]
                    }),
            decreases self.labels.len() - i,
        {
            if self.labels[i] == from {
                self.labels.set(i, to);
            }
            i = i + 1;
        }
        assert(self.labels@ =~= joined_labels(was, from, to));
        self.edges.push(Edge { a, b, tokens, pair });
    }
}

/// The functions of every file.
pub open spec fn units_of(units: Seq<Vec<Loc>>, files: Seq<SourceFile>, toks: Seq<TokensView>) -> bool {
    units.len() == files.len() && forall|i: int|
        0 <= i < units.len() ==> (#[trigger] units[i]).deep_view() == unit_locs(files[i], toks[i]) && forall|j: int|
            0 <= j < units[i].len() ==> (#[trigger] units[i]@[j]).start_line <= units[i]@[j].end_line
}

fn side_loc(side: &Loc, files: &Vec<SourceFile>, toks: &Vec<Tokens>, units: &Vec<Vec<Loc>>) -> (r: Loc)
    requires
        files.len() == toks.len(),
        units_of(units@, files@, views(toks@)),
        file_at(files@, side.file@, 0) is Some,
    ensures
        r.deep_view() == side_scope(files@, views(toks@), side.deep_view()),
{
    let f: usize = find_file(files, side.file.as_str());
    assert(views(toks@)[f as int] == toks@[f as int]@);
    assert(units@[f as int].deep_view() == unit_locs(files@[f as int], views(toks@)[f as int]));
    scope(side, &units[f], &toks[f])
}

fn link(files: &Vec<SourceFile>, toks: &Vec<Tokens>, pairs: &Vec<ClonePair>) -> (r: Links)
    requires
        files.len() == toks.len(),
        all_ok(toks@),
        known(pairs.deep_view(), files@),
        2 * pairs.len() < usize::MAX,
    ensures
        r@ == links_of(files@, views(toks@), pairs.deep_view(), pairs.len() as int),
        links_ok(r@, files@, pairs.len() as int),
{
    let ghost tv = views(toks@);
    let ghost pv = pairs.deep_view();
    let mut units: Vec<Vec<Loc>> = Vec::new();
    let mut i: usize = 0;
    while i < files.len()
        invariant
            i <= files.len(),
            i == units.len(),
            files.len() == toks.len(),
            all_ok(toks@),
            tv == views(toks@),
            forall|k: int|
                0 <= k < i ==> (#[trigger] units@[k]).deep_view() == unit_locs(files@[k], tv[k]) && forall|j: int|
                    0 <= j < units@[k].len() ==> (#[trigger] units@[k]@[j]).start_line <= units@[k]@[j].end_line,
        decreases files.len() - i,
    {
        assert(toks@[i as int].ok());
        assert(tv[i as int] == toks@[i as int]@);
        units.push(find_units(&files[i], &toks[i]));
        i = i + 1;
    }
    let mut r = Links { members: Vec::new(), labels: Vec::new(), edges: Vec::new() };
    assert(r.members.deep_view() =~= Seq::<LocView>::empty());
    let mut n: usize = 0;
    while n < pairs.len()
        invariant
            n <= pairs.len(),
            files.len() == toks.len(),
            tv == views(toks@),
            pv == pairs.deep_view(),
            known(pv, files@),
            2 * pairs.len() < usize::MAX,
            units_of(units@, files@, tv),
            r@ == links_of(files@, tv, pv, n as int),
        decreases pairs.len() - n,
    {
        let p = &pairs[n];
        assert(pv[n as int] == p.deep_view());
        proof {
            edges_stay_in_one_family(files@, tv, pv, n as int);
            scope_stays_in_file(files@, tv, pv[n as int].a);
            scope_stays_in_file(files@, tv, pv[n as int].b);
        }
        if p.kind == CloneKind::Logic {
            let sa = side_loc(&p.a, files, toks, &units);
            let sb = side_loc(&p.b, files, toks, &units);
            let (x, y) = if is_same_loc(&sa, &sb) {
                (copy_loc(&p.a), copy_loc(&p.b))
            } else {
                (sa, sb)
            };
            assert((x.deep_view(), y.deep_view()) == ends_of(files@, tv, pv[n as int]));
            let ghost s0 = r@;
            proof {
                loc_keeps_links(s0, x.deep_view(), files@, n as int);
                loc_keeps_links(with_loc(s0, x.deep_view()), y.deep_view(), files@, n as int);
            }
            let a: usize = r.add(x);
            let b: usize = r.add(y);
            if a != b {
                r.join(a, b, p.tokens, n);
            }
        }
        n = n + 1;
    }
    proof {
        edges_stay_in_one_family(files@, tv, pv, pairs.len() as int);
    }
    r
}

// ---------- clusters ----------

/// The edges of one family, with its members in order and its longest run.
pub struct ClusterView {
    pub edges: Seq<Edge>,
    pub ids: Seq<usize>,
    pub max: usize,
}

/// The first `n` edges of a family.
pub open spec fn edges_in(s: LinkView, root: int, n: int) -> Seq<Edge>
    decreases n,
{
    if n <= 0 {
        Seq::empty()
    } else {
        let was = edges_in(s, root, n - 1);
        if s.labels[s.edges[n - 1].a as int] == root {
            was.push(s.edges[n - 1])
        } else {
            was
        }
    }
}

/// An edge has a member as an end.
pub open spec fn touches(edges: Seq<Edge>, id: int) -> bool {
    exists|i: int| 0 <= i < edges.len() && ((#[trigger] edges[i]).a == id || edges[i].b == id)
}

/// The ones of the first `n` members that are ends of edges.
pub open spec fn ends_in(edges: Seq<Edge>, n: int) -> Seq<usize>
    decreases n,
{
    if n <= 0 {
        Seq::empty()
    } else {
        let was = ends_in(edges, n - 1);
        if touches(edges, n - 1) {
            was.push((n - 1) as usize)
        } else {
            was
        }
    }
}

/// How many of the first `n` members lie in files that come before a path.
pub open spec fn loc_rank(members: Seq<LocView>, path: Chars, n: int) -> nat
    decreases n,
{
    if n <= 0 {
        0
    } else {
        loc_rank(members, path, n - 1) + (if before(members[n - 1].file, path) {
            1nat
        } else {
            0nat
        })
    }
}

/// The rows by which members are ordered: by file, first line and last line.
pub open spec fn id_rows(members: Seq<LocView>, ids: Seq<usize>) -> Seq<Row> {
    Seq::new(
        ids.len(),
        |i: int|
            {
                let m = members[ids[i] as int];
                (
                    loc_rank(members, m.file, members.len() as int) as i128,
                    m.start_line as i128,
                    m.end_line as i128,
                    i as i128,
                    0,
                    0,
                )
            },
    )
}

/// Members in order.
pub open spec fn ids_sorted(members: Seq<LocView>, ids: Seq<usize>) -> Seq<usize> {
    let rows = sorted_rows(id_rows(members, ids));
    Seq::new(rows.len(), |i: int| ids[rows[i].3 as int])
}

/// The longest run of the first `n` edges.
pub open spec fn longest_run(edges: Seq<Edge>, n: int) -> usize
    decreases n,
{
    if n <= 0 {
        0
    } else {
        let was = longest_run(edges, n - 1);
        if edges[n - 1].tokens > was {
            edges[n - 1].tokens
        } else {
            was
        }
    }
}

/// One family.
pub open spec fn cluster_of(s: LinkView, root: int) -> ClusterView {
    let edges = edges_in(s, root, s.edges.len() as int);
    ClusterView {
        edges,
        ids: ids_sorted(s.members, ends_in(edges, s.members.len() as int)),
        max: longest_run(edges, edges.len() as int),
    }
}

/// The families of the first `n` labels.
pub open spec fn clusters_in(s: LinkView, n: int) -> Seq<ClusterView>
    decreases n,
{
    if n <= 0 {
        Seq::empty()
    } else {
        let was = clusters_in(s, n - 1);
        let c = cluster_of(s, n - 1);
        if c.edges.len() > 0 {
            was.push(c)
        } else {
            was
        }
    }
}

/// The rows by which families are ordered: the longest run first, then by the first member.
pub open spec fn cluster_rows(members: Seq<LocView>, c: Seq<ClusterView>) -> Seq<Row> {
    Seq::new(
        c.len(),
        |i: int|
            {
                let m = members[c[i].ids[0] as int];
                (
                    -c[i].max as i128,
                    loc_rank(members, m.file, members.len() as int) as i128,
                    m.start_line as i128,
                    i as i128,
                    0,
                    0,
                )
            },
    )
}

/// Families in order.
pub open spec fn clusters_sorted(members: Seq<LocView>, c: Seq<ClusterView>) -> Seq<ClusterView> {
    let rows = sorted_rows(cluster_rows(members, c));
    Seq::new(rows.len(), |i: int| c[rows[i].3 as int])
}

/// The same two members.
pub open spec fn same_ends(x: Edge, y: Edge) -> bool {
    (x.a == y.a && x.b == y.b) || (x.a == y.b && x.b == y.a)
}

/// An edge connects two members that one of the first `n` edges connects.
pub open spec fn connected(edges: Seq<Edge>, e: Edge, n: int) -> bool {
    exists|j: int| 0 <= j < n && same_ends(#[trigger] edges[j], e)
}

/// The first of the edges between any two members, among the first `n`.
pub open spec fn first_edges(edges: Seq<Edge>, n: int) -> Seq<Edge>
    decreases n,
{
    if n <= 0 {
        Seq::empty()
    } else {
        let was = first_edges(edges, n - 1);
        if connected(edges, edges[n - 1], n - 1) {
            was
        } else {
            was.push(edges[n - 1])
        }
    }
}

/// The comparison of an edge's ends.
pub open spec fn comparison_of(members: Seq<LocView>, files: Seq<SourceFile>, e: Edge) -> ComparisonView {
    let a = members[e.a as int];
    let b = members[e.b as int];
    compared(
        a,
        b,
        lines_of(files[file_of(files, a.file)].content@),
        lines_of(files[file_of(files, b.file)].content@),
    )
}

/// How many comparisons a family shows.
pub open spec fn shown(n: nat) -> nat {
    if n < MAX_COMPARISONS {
        n
    } else {
        MAX_COMPARISONS as nat
    }
}

/// A family as it is reported.
pub open spec fn family_of(s: LinkView, files: Seq<SourceFile>, pairs: Seq<PairView>, c: ClusterView) -> FamilyView {
    let firsts = first_edges(c.edges, c.edges.len() as int);
    FamilyView {
        members: Seq::new(c.ids.len(), |i: int| s.members[c.ids[i] as int]),
        pair_count: c.edges.len(),
        matches: Seq::new(c.edges.len(), |i: int| pairs[c.edges[i].pair as int]),
        max_shared_tokens: c.max,
        comparisons: Seq::new(shown(firsts.len()), |i: int| comparison_of(s.members, files, firsts[i])),
        comparisons_omitted: (firsts.len() - shown(firsts.len())) as nat,
    }
}

/// The families of pairs.
pub open spec fn families_of(files: Seq<SourceFile>, toks: Seq<TokensView>, pairs: Seq<PairView>) -> Seq<FamilyView> {
    let s = links_of(files, toks, pairs, pairs.len() as int);
    let c = clusters_sorted(s.members, clusters_in(s, s.members.len() as int));
    Seq::new(c.len(), |i: int| family_of(s, files, pairs, c[i]))
}

/// The edges of one family, with its members in order and its longest run.
struct Cluster {
    edges: Vec<Edge>,
    ids: Vec<usize>,
    max: usize,
}

impl DeepView for Cluster {
    type V = ClusterView;

    closed spec fn deep_view(&self) -> ClusterView {
        ClusterView { edges: self.edges@, ids: self.ids@, max: self.max }
    }
}

/// The edges of a family connect members, through pairs.
spec fn edges_ok(edges: Seq<Edge>, members: nat, pairs: int) -> bool {
    forall|i: int|
        0 <= i < edges.len() ==> (#[trigger] edges[i]).a < members && edges[i].b < members && edges[i].pair < pairs
}

spec fn ids_ok(ids: Seq<usize>, members: nat) -> bool {
    forall|i: int| 0 <= i < ids.len() ==> (#[trigger] ids[i]) < members
}

spec fn cluster_ok(c: ClusterView, members: nat, pairs: int) -> bool {
    edges_ok(c.edges, members, pairs) && ids_ok(c.ids, members) && c.ids.len() > 0
}

fn rank_locs(members: &Vec<Loc>) -> (out: Vec<usize>)
    ensures
        out.len() == members.len(),
        forall|i: int|
            0 <= i < out.len() ==> #[trigger] out@[i] == loc_rank(
                members.deep_view(),
                members.deep_view()[i].file,
                members.len() as int,
            ),
{
    let ghost view = members.deep_view();
    let mut out: Vec<usize> = Vec::new();
    let mut i: usize = 0;
    while i < members.len()
        invariant
            i <= members.len(),
            i == out.len(),
            view == members.deep_view(),
            forall|j: int| 0 <= j < i ==> #[trigger] out@[j] == loc_rank(view, view[j].file, members.len() as int),
        decreases members.len() - i,
    {
        assert(view[i as int] == members@[i as int].deep_view());
        let mut r: usize = 0;
        let mut n: usize = 0;
        while n < members.len()
            invariant
                n <= members.len(),
                i < members.len(),
                view == members.deep_view(),
                view[i as int] == members@[i as int].deep_view(),
                r <= n,
                r == loc_rank(view, view[i as int].file, n as int),
            decreases members.len() - n,
        {
            assert(view[n as int] == members@[n as int].deep_view());
            if less(members[n].file.as_str(), members[i].file.as_str()) {
                r = r + 1;
            }
            n = n + 1;
        }
        out.push(r);
        i = i + 1;
    }
    out
}

fn find_ends(edges: &Vec<Edge>, members: usize) -> (out: Vec<usize>)
    ensures
        out@ == ends_in(edges@, members as int),
        ids_ok(out@, members as nat),
{
    let mut out: Vec<usize> = Vec::new();
    let mut n: usize = 0;
    assert(out@ =~= Seq::<usize>::empty());
    while n < members
        invariant
            n <= members,
            out@ == ends_in(edges@, n as int),
            ids_ok(out@, n as nat),
        decreases members - n,
    {
        let mut met = false;
        let mut i: usize = 0;
        while i < edges.len()
            invariant
                i <= edges.len(),
                met == (exists|j: int| 0 <= j < i && ((#[trigger] edges@[j]).a == n || edges@[j].b == n)),
            decreases edges.len() - i,
        {
            if edges[i].a == n || edges[i].b == n {
                assert(edges@[i as int].a == n || edges@[i as int].b == n);
                met = true;
            }
            i = i + 1;
        }
        assert(met == touches(edges@, n as int));
        if met {
            out.push(n);
        }
        n = n + 1;
    }
    out
}

fn sort_ids(members: &Vec<Loc>, ranks: &Vec<usize>, ids: &Vec<usize>) -> (out: Vec<usize>)
    requires
        ids_ok(ids@, members.len() as nat),
        ranks.len() == members.len(),
        forall|i: int|
            0 <= i < ranks.len() ==> #[trigger] ranks@[i] == loc_rank(
                members.deep_view(),
                members.deep_view()[i].file,
                members.len() as int,
            ),
    ensures
        out@ == ids_sorted(members.deep_view(), ids@),
        ids_ok(out@, members.len() as nat),
        out.len() == ids.len(),
{
    let ghost view = members.deep_view();
    let ghost want = id_rows(view, ids@);
    let mut rows: Vec<Row> = Vec::new();
    let mut i: usize = 0;
    while i < ids.len()
        invariant
            i <= ids.len(),
            i == rows.len(),
            view == members.deep_view(),
            view.len() == members.len(),
            want == id_rows(view, ids@),
            ids_ok(ids@, members.len() as nat),
            ranks.len() == members.len(),
            forall|i: int| 0 <= i < ranks.len() ==> #[trigger] ranks@[i] == loc_rank(view, view[i].file, members.len() as int),
            forall|j: int| 0 <= j < i ==> #[trigger] rows@[j] == want[j],
        decreases ids.len() - i,
    {
        assert(ids@[i as int] < members.len());
        let at: usize = ids[i];
        let m = &members[at];
        assert(view[at as int] == m.deep_view());
        assert(ranks@[at as int] == loc_rank(view, view[at as int].file, members.len() as int));
        rows.push((ranks[at] as i128, m.start_line as i128, m.end_line as i128, i as i128, 0, 0));
        i = i + 1;
    }
    assert(rows@ =~= want);
    let sorted = sort_rows(&rows);
    proof {
        sorted_rows_are_sorted(want);
        assert forall|j: int| 0 <= j < sorted.len() implies 0 <= (#[trigger] sorted@[j]).3 < ids.len() by {
            sorted_rows_hold(want, sorted@[j]);
            assert(sorted@.contains(sorted@[j]));
            let m = choose|m: int| 0 <= m < want.len() && want[m] == sorted@[j];
            assert(want[m].3 == m);
        }
    }
    let mut out: Vec<usize> = Vec::new();
    let mut i: usize = 0;
    while i < sorted.len()
        invariant
            i <= sorted.len(),
            i == out.len(),
            ids_ok(ids@, members.len() as nat),
            ids_ok(out@, members.len() as nat),
            forall|j: int| 0 <= j < sorted.len() ==> 0 <= (#[trigger] sorted@[j]).3 < ids.len(),
            forall|j: int| 0 <= j < i ==> #[trigger] out@[j] == ids@[sorted@[j].3 as int],
        decreases sorted.len() - i,
    {
        assert(0 <= sorted@[i as int].3 < ids.len());
        let at: usize = sorted[i].3 as usize;
        assert(ids@[at as int] < members.len());
        out.push(ids[at]);
        i = i + 1;
    }
    assert(out@ =~= ids_sorted(view, ids@));
    out
}

proof fn touched_is_in(edges: Seq<Edge>, n: int, id: int)
    requires
        0 <= id < n,
        touches(edges, id),
    ensures
        ends_in(edges, n).len() > 0,
    decreases n,
{
    if n - 1 > id {
        touched_is_in(edges, n - 1, id);
    }
}

fn find_clusters(s: &Links, ranks: &Vec<usize>, files: Ghost<Seq<SourceFile>>, pairs: Ghost<int>) -> (out: Vec<Cluster>)
    requires
        links_ok(s@, files@, pairs@),
        ranks.len() == s.members.len(),
        forall|i: int|
            0 <= i < ranks.len() ==> #[trigger] ranks@[i] == loc_rank(
                s.members.deep_view(),
                s.members.deep_view()[i].file,
                s.members.len() as int,
            ),
    ensures
        out.deep_view() == clusters_in(s@, s.members.len() as int),
        forall|i: int|
            0 <= i < out.len() ==> cluster_ok((#[trigger] out@[i]).deep_view(), s.members.len() as nat, pairs@),
{
    let ghost sv = s@;
    assert(s.members.len() == sv.members.len());
    let mut out: Vec<Cluster> = Vec::new();
    let mut n: usize = 0;
    assert(out.deep_view() =~= Seq::<ClusterView>::empty());
    while n < s.members.len()
        invariant
            n <= s.members.len(),
            sv == s@,
            s.members.len() == sv.members.len(),
            links_ok(sv, files@, pairs@),
            ranks.len() == s.members.len(),
            forall|i: int|
                0 <= i < ranks.len() ==> #[trigger] ranks@[i] == loc_rank(
                    s.members.deep_view(),
                    s.members.deep_view()[i].file,
                    s.members.len() as int,
                ),
            out.deep_view() == clusters_in(sv, n as int),
            forall|i: int|
                0 <= i < out.len() ==> cluster_ok((#[trigger] out@[i]).deep_view(), s.members.len() as nat, pairs@),
        decreases s.members.len() - n,
    {
        let mut edges: Vec<Edge> = Vec::new();
        let mut max: usize = 0;
        let mut k: usize = 0;
        assert(edges@ =~= Seq::<Edge>::empty());
        while k < s.edges.len()
            invariant
                k <= s.edges.len(),
                sv == s@,
                s.members.len() == sv.members.len(),
                links_ok(sv, files@, pairs@),
                edges@ == edges_in(sv, n as int, k as int),
                edges_ok(edges@, s.members.len() as nat, pairs@),
                max == longest_run(edges@, edges.len() as int),
            decreases s.edges.len() - k,
        {
            let e: Edge = s.edges[k];
            assert(sv.edges[k as int] == e);
            assert(sv.edges[k as int].a < sv.members.len());
            if s.labels[e.a] == n {
                let ghost was = edges@;
                edges.push(e);
                proof {
                    longest_run_is_prefix(was, edges@, was.len() as int);
                }
                if e.tokens > max {
                    max = e.tokens;
                }
            }
            k = k + 1;
        }
        if edges.len() > 0 {
            let ends = find_ends(&edges, s.members.len());
            proof {
                assert(edges@[0].a < s.members.len());
                assert(touches(edges@, edges@[0].a as int));
                touched_is_in(edges@, s.members.len() as int, edges@[0].a as int);
            }
            let ids = sort_ids(&s.members, ranks, &ends);
            let c = Cluster { edges, ids, max };
            assert(c.deep_view() == cluster_of(sv, n as int));
            put(&mut out, c);
        }
        n = n + 1;
    }
    out
}

proof fn longest_run_is_prefix(a: Seq<Edge>, b: Seq<Edge>, n: int)
    requires
        n <= a.len() <= b.len(),
        forall|i: int| 0 <= i < a.len() ==> #[trigger] a[i] == b[i],
    ensures
        longest_run(a, n) == longest_run(b, n),
    decreases n,
{
    if n > 0 {
        longest_run_is_prefix(a, b, n - 1);
        assert(a[n - 1] == b[n - 1]);
    }
}

fn order_clusters(members: &Vec<Loc>, ranks: &Vec<usize>, c: &Vec<Cluster>, pairs: Ghost<int>) -> (out: Vec<usize>)
    requires
        ranks.len() == members.len(),
        forall|i: int|
            0 <= i < ranks.len() ==> #[trigger] ranks@[i] == loc_rank(
                members.deep_view(),
                members.deep_view()[i].file,
                members.len() as int,
            ),
        forall|i: int| 0 <= i < c.len() ==> cluster_ok((#[trigger] c@[i]).deep_view(), members.len() as nat, pairs@),
    ensures
        out.len() == sorted_rows(cluster_rows(members.deep_view(), c.deep_view())).len(),
        forall|i: int|
            0 <= i < out.len() ==> #[trigger] out@[i] < c.len() && out@[i] == sorted_rows(
                cluster_rows(members.deep_view(), c.deep_view()),
            )[i].3,
{
    let ghost view = members.deep_view();
    let ghost cv = c.deep_view();
    let ghost want = cluster_rows(view, cv);
    let mut rows: Vec<Row> = Vec::new();
    let mut i: usize = 0;
    while i < c.len()
        invariant
            i <= c.len(),
            i == rows.len(),
            view == members.deep_view(),
            view.len() == members.len(),
            cv == c.deep_view(),
            want == cluster_rows(view, cv),
            ranks.len() == members.len(),
            forall|i: int| 0 <= i < ranks.len() ==> #[trigger] ranks@[i] == loc_rank(view, view[i].file, members.len() as int),
            forall|i: int| 0 <= i < c.len() ==> cluster_ok((#[trigger] c@[i]).deep_view(), members.len() as nat, pairs@),
            forall|j: int| 0 <= j < i ==> #[trigger] rows@[j] == want[j],
        decreases c.len() - i,
    {
        assert(cv[i as int] == c@[i as int].deep_view());
        assert(cluster_ok(c@[i as int].deep_view(), members.len() as nat, pairs@));
        assert(c@[i as int].deep_view().ids[0] < members.len());
        let at: usize = c[i].ids[0];
        assert(view[at as int] == members@[at as int].deep_view());
        assert(ranks@[at as int] == loc_rank(view, view[at as int].file, members.len() as int));
        rows.push((-(c[i].max as i128), ranks[at] as i128, members[at].start_line as i128, i as i128, 0, 0));
        i = i + 1;
    }
    assert(rows@ =~= want);
    let sorted = sort_rows(&rows);
    proof {
        sorted_rows_are_sorted(want);
        assert forall|j: int| 0 <= j < sorted.len() implies 0 <= (#[trigger] sorted@[j]).3 < c.len() by {
            sorted_rows_hold(want, sorted@[j]);
            assert(sorted@.contains(sorted@[j]));
            let m = choose|m: int| 0 <= m < want.len() && want[m] == sorted@[j];
            assert(want[m].3 == m);
        }
    }
    let mut out: Vec<usize> = Vec::new();
    let mut i: usize = 0;
    while i < sorted.len()
        invariant
            i <= sorted.len(),
            i == out.len(),
            forall|j: int| 0 <= j < sorted.len() ==> 0 <= (#[trigger] sorted@[j]).3 < c.len(),
            forall|j: int| 0 <= j < i ==> #[trigger] out@[j] < c.len() && out@[j] == sorted@[j].3,
        decreases sorted.len() - i,
    {
        assert(0 <= sorted@[i as int].3 < c.len());
        out.push(sorted[i].3 as usize);
        i = i + 1;
    }
    out
}

fn copy_pair(p: &ClonePair) -> (r: ClonePair)
    ensures
        r.deep_view() == p.deep_view(),
{
    ClonePair {
        a: copy_loc(&p.a),
        b: copy_loc(&p.b),
        tokens: p.tokens,
        kind: p.kind,
        container_kind: match &p.container_kind {
            Some(s) => Some(s.as_str().to_owned()),
            None => None,
        },
        entry_count: p.entry_count,
    }
}

fn find_firsts(edges: &Vec<Edge>, members: Ghost<nat>, pairs: Ghost<int>) -> (out: Vec<Edge>)
    requires
        edges_ok(edges@, members@, pairs@),
    ensures
        out@ == first_edges(edges@, edges.len() as int),
        edges_ok(out@, members@, pairs@),
{
    let mut out: Vec<Edge> = Vec::new();
    let mut n: usize = 0;
    assert(out@ =~= Seq::<Edge>::empty());
    while n < edges.len()
        invariant
            n <= edges.len(),
            edges_ok(edges@, members@, pairs@),
            edges_ok(out@, members@, pairs@),
            out@ == first_edges(edges@, n as int),
        decreases edges.len() - n,
    {
        let e: Edge = edges[n];
        assert(edges@[n as int].a < members@);
        let mut met = false;
        let mut j: usize = 0;
        while j < n
            invariant
                j <= n,
                n < edges.len(),
                e == edges@[n as int],
                met == (exists|i: int| 0 <= i < j && same_ends(#[trigger] edges@[i], e)),
            decreases n - j,
        {
            let x: Edge = edges[j];
            if (x.a == e.a && x.b == e.b) || (x.a == e.b && x.b == e.a) {
                assert(same_ends(edges@[j as int], e));
                met = true;
            }
            j = j + 1;
        }
        assert(met == connected(edges@, e, n as int));
        if !met {
            out.push(e);
        }
        n = n + 1;
    }
    out
}

#[verifier::rlimit(60)]
#[verifier::spinoff_prover]
fn make_family(s: &Links, files: &Vec<SourceFile>, pairs: &Vec<ClonePair>, c: &Cluster) -> (r: CloneFamily)
    requires
        links_ok(s@, files@, pairs.len() as int),
        cluster_ok(c.deep_view(), s.members.len() as nat, pairs.len() as int),
    ensures
        r.deep_view() == family_of(s@, files@, pairs.deep_view(), c.deep_view()),
{
    let ghost sv = s@;
    let ghost mv = s.members.deep_view();
    let ghost pv = pairs.deep_view();
    let ghost cv = c.deep_view();
    let ghost want = family_of(sv, files@, pv, cv);
    assert(sv.members == mv && mv.len() == s.members.len());
    let mut members: Vec<Loc> = Vec::new();
    let mut i: usize = 0;
    while i < c.ids.len()
        invariant
            i <= c.ids.len(),
            i == members.len(),
            mv == s.members.deep_view(),
            cv == c.deep_view(),
            ids_ok(c.ids@, s.members.len() as nat),
            forall|j: int| 0 <= j < i ==> (#[trigger] members@[j]).deep_view() == mv[c.ids@[j] as int],
        decreases c.ids.len() - i,
    {
        assert(c.ids@[i as int] < s.members.len());
        let at: usize = c.ids[i];
        assert(mv[at as int] == s.members@[at as int].deep_view());
        members.push(copy_loc(&s.members[at]));
        i = i + 1;
    }
    assert(members.deep_view() =~= want.members);
    let mut matches: Vec<ClonePair> = Vec::new();
    let mut i: usize = 0;
    while i < c.edges.len()
        invariant
            i <= c.edges.len(),
            i == matches.len(),
            pv == pairs.deep_view(),
            edges_ok(c.edges@, s.members.len() as nat, pairs.len() as int),
            forall|j: int| 0 <= j < i ==> (#[trigger] matches@[j]).deep_view() == pv[c.edges@[j].pair as int],
        decreases c.edges.len() - i,
    {
        assert(c.edges@[i as int].pair < pairs.len());
        let at: usize = c.edges[i].pair;
        assert(pv[at as int] == pairs@[at as int].deep_view());
        matches.push(copy_pair(&pairs[at]));
        i = i + 1;
    }
    assert(matches.deep_view() =~= want.matches);
    let firsts = find_firsts(&c.edges, Ghost(mv.len()), Ghost(pairs.len() as int));
    let n: usize = if firsts.len() < MAX_COMPARISONS {
        firsts.len()
    } else {
        MAX_COMPARISONS
    };
    let mut comparisons: Vec<Comparison> = Vec::new();
    let mut i: usize = 0;
    while i < n
        invariant
            i <= n <= firsts.len(),
            i == comparisons.len(),
            sv == s@,
            mv == s.members.deep_view(),
            sv.members == mv,
            mv.len() == s.members.len(),
            links_ok(sv, files@, pairs.len() as int),
            edges_ok(firsts@, mv.len(), pairs.len() as int),
            forall|j: int|
                0 <= j < i ==> (#[trigger] comparisons@[j]).deep_view() == comparison_of(mv, files@, firsts@[j]),
        decreases n - i,
    {
        let e: Edge = firsts[i];
        assert(firsts@[i as int].a < mv.len());
        let a = &s.members[e.a];
        let b = &s.members[e.b];
        assert(mv[e.a as int] == a.deep_view());
        assert(mv[e.b as int] == b.deep_view());
        assert(file_at(files@, sv.members[e.a as int].file, 0) is Some);
        assert(file_at(files@, sv.members[e.b as int].file, 0) is Some);
        let fa: usize = find_file(files, a.file.as_str());
        let fb: usize = find_file(files, b.file.as_str());
        comparisons.push(compare(a, b, files[fa].content.as_str(), files[fb].content.as_str()));
        i = i + 1;
    }
    assert(comparisons.deep_view() =~= want.comparisons);
    CloneFamily {
        members,
        pair_count: c.edges.len(),
        matches,
        max_shared_tokens: c.max,
        comparisons,
        comparisons_omitted: firsts.len() - n,
    }
}

/// The families of pairs: functions that logic pairs connect, directly or through others.
pub fn build(pairs: &Vec<ClonePair>, files: &Vec<SourceFile>, toks: &Vec<Tokens>) -> (out: Vec<CloneFamily>)
    requires
        files.len() == toks.len(),
        all_ok(toks@),
        known(pairs.deep_view(), files@),
        2 * pairs.len() < usize::MAX,
    ensures
        out.deep_view() == families_of(files@, views(toks@), pairs.deep_view()),
{
    let ghost tv = views(toks@);
    let ghost pv = pairs.deep_view();
    let s = link(files, toks, pairs);
    let ghost sv = s@;
    let ranks = rank_locs(&s.members);
    let c = find_clusters(&s, &ranks, Ghost(files@), Ghost(pairs.len() as int));
    let order = order_clusters(&s.members, &ranks, &c, Ghost(pairs.len() as int));
    let ghost cv = c.deep_view();
    let ghost sorted = clusters_sorted(sv.members, cv);
    let ghost want = families_of(files@, tv, pv);
    assert(s.members.len() == sv.members.len());
    assert(pairs.len() == pv.len());
    let mut out: Vec<CloneFamily> = Vec::new();
    let mut i: usize = 0;
    while i < order.len()
        invariant
            i <= order.len(),
            i == out.len(),
            sv == s@,
            cv == c.deep_view(),
            pv == pairs.deep_view(),
            s.members.len() == sv.members.len(),
            links_ok(sv, files@, pairs.len() as int),
            sorted == clusters_sorted(sv.members, cv),
            order.len() == sorted.len(),
            want.len() == sorted.len(),
            forall|j: int| 0 <= j < want.len() ==> #[trigger] want[j] == family_of(sv, files@, pv, sorted[j]),
            forall|j: int| 0 <= j < order.len() ==> #[trigger] order@[j] < c.len() && sorted[j] == cv[order@[j] as int],
            forall|i: int|
                0 <= i < c.len() ==> cluster_ok((#[trigger] c@[i]).deep_view(), s.members.len() as nat, pairs.len() as int),
            forall|j: int| 0 <= j < i ==> (#[trigger] out@[j]).deep_view() == want[j],
        decreases order.len() - i,
    {
        assert(order@[i as int] < c.len());
        let at: usize = order[i];
        assert(cv[at as int] == c@[at as int].deep_view());
        assert(cluster_ok(c@[at as int].deep_view(), s.members.len() as nat, pairs.len() as int));
        let f = make_family(&s, files, pairs, &c[at]);
        out.push(f);
        i = i + 1;
    }
    assert(out.deep_view() =~= want);
    out
}

} // verus!
