//! What is said of a cycle.

use vstd::prelude::*;

use crate::deps::cuts::{Cuts, CutsView, EdgeCut, EdgeCutView, HubCut, HubCutView};
use crate::deps::graph::{Edge, EdgeView};
use crate::discover::{base_of, basename, dir, dir_of};
use crate::text::{
    decimal, digits, join, joined, pieces, plus, put, same, split, starts, starts_with, trim_trailing, without_trailing, Chars,
};

verus! {

/// Files or directories that depend on each other.
pub struct Cycle {
    pub members: Vec<String>,
    /// Deepest directory containing every member (`.` for the root).
    pub dir: String,
    pub cuts: Option<Cuts>,
}

/// A [`Cycle`] by its contents.
pub struct CycleView {
    pub members: Seq<Chars>,
    pub dir: Chars,
    pub cuts: Option<CutsView>,
}

impl DeepView for Cycle {
    type V = CycleView;

    open spec fn deep_view(&self) -> CycleView {
        CycleView { members: self.members.deep_view(), dir: self.dir@, cuts: self.cuts.deep_view() }
    }
}

// ---------- directories ----------

/// The components of a directory that name something.
pub open spec fn dir_names(d: Chars) -> Seq<Chars> {
    crate::deps::resolve::inked_parts(pieces(d, "/"@))
}

/// How many components two lists share from `k` on.
pub open spec fn shared_len(a: Seq<Chars>, b: Seq<Chars>, k: int) -> int
    decreases a.len() - k,
{
    if k < 0 || k >= a.len() || k >= b.len() || a[k] != b[k] {
        k
    } else {
        shared_len(a, b, k + 1)
    }
}

/// The components all directories share.
pub open spec fn shared_parts(dirs: Seq<Chars>) -> Seq<Chars>
    decreases dirs.len(),
{
    if dirs.len() == 0 {
        Seq::empty()
    } else if dirs.len() == 1 {
        dir_names(dirs[0])
    } else {
        let rest = shared_parts(dirs.drop_last());
        rest.take(shared_len(rest, dir_names(dirs.last()), 0))
    }
}

/// The deepest directory above all of them; `.` at the root.
pub open spec fn common_of(dirs: Seq<Chars>) -> Chars {
    let parts = shared_parts(dirs);
    if parts.len() == 0 {
        "."@
    } else {
        joined(parts, "/"@)
    }
}

/// The directories of files.
pub open spec fn dirs_of(files: Seq<Chars>) -> Seq<Chars> {
    Seq::new(files.len(), |i: int| dir_of(files[i]))
}

proof fn shared_len_bounds(a: Seq<Chars>, b: Seq<Chars>, k: int)
    requires
        0 <= k <= a.len(),
        k <= b.len(),
    ensures
        k <= shared_len(a, b, k) <= a.len(),
        shared_len(a, b, k) <= b.len(),
        forall|i: int| k <= i < shared_len(a, b, k) ==> #[trigger] a[i] == b[i],
    decreases a.len() - k,
{
    if k < a.len() && k < b.len() && a[k] == b[k] {
        shared_len_bounds(a, b, k + 1);
    }
}

fn names_of_dir(d: &str) -> (out: Vec<String>)
    ensures
        out.deep_view() == dir_names(d@),
{
    let list = split(d, "/");
    let ghost view = list.deep_view();
    let mut out: Vec<String> = Vec::new();
    let mut k: usize = 0;
    assert(view.take(0) =~= Seq::<Chars>::empty());
    assert(out.deep_view() =~= Seq::<Chars>::empty());
    while k < list.len()
        invariant
            k <= list.len(),
            view == list.deep_view(),
            out.deep_view() == crate::deps::resolve::inked_parts(view.take(k as int)),
        decreases list.len() - k,
    {
        assert(view.take(k + 1).drop_last() =~= view.take(k as int));
        assert(view[k as int] == list@[k as int]@);
        if !list[k].as_str().is_empty() {
            put(&mut out, list[k].as_str().to_owned());
        }
        k = k + 1;
    }
    assert(view.take(view.len() as int) =~= view);
    out
}

fn keep_shared(a: Vec<String>, b: &Vec<String>) -> (out: Vec<String>)
    ensures
        out.deep_view() == a.deep_view().take(shared_len(a.deep_view(), b.deep_view(), 0)),
{
    let ghost av = a.deep_view();
    let ghost bv = b.deep_view();
    let mut n: usize = 0;
    while n < a.len() && n < b.len() && same(a[n].as_str(), b[n].as_str())
        invariant
            n <= a.len(),
            n <= b.len(),
            av == a.deep_view(),
            bv == b.deep_view(),
            shared_len(av, bv, 0) == shared_len(av, bv, n as int),
        decreases a.len() - n,
    {
        assert(av[n as int] == a@[n as int]@);
        assert(bv[n as int] == b@[n as int]@);
        n = n + 1;
    }
    assert(n < a.len() ==> av[n as int] == a@[n as int]@);
    assert(n < b.len() ==> bv[n as int] == b@[n as int]@);
    let mut out = a;
    out.truncate(n);
    assert(out.deep_view() =~= av.take(n as int));
    out
}

/// The deepest directory above all of them; `.` at the root.
pub fn common_dir_of(dirs: &Vec<String>) -> (r: String)
    ensures
        r@ == common_of(dirs.deep_view()),
{
    let ghost view = dirs.deep_view();
    assert(view.len() == dirs.len());
    let mut common: Vec<String> = Vec::new();
    assert(common.deep_view() =~= Seq::<Chars>::empty());
    let mut k: usize = 0;
    assert(view.take(0) =~= Seq::<Chars>::empty());
    while k < dirs.len()
        invariant
            k <= dirs.len(),
            view == dirs.deep_view(),
            common.deep_view() == shared_parts(view.take(k as int)),
        decreases dirs.len() - k,
    {
        assert(view.take(k + 1).drop_last() =~= view.take(k as int));
        assert(view[k as int] == dirs@[k as int]@);
        assert(view.take(k + 1)[0] == view[0]);
        let parts = names_of_dir(dirs[k].as_str());
        common = if k == 0 {
            parts
        } else {
            keep_shared(common, &parts)
        };
        k = k + 1;
    }
    assert(view.take(view.len() as int) =~= view);
    assert(common.len() == common.deep_view().len());
    if common.len() == 0 {
        ".".to_owned()
    } else {
        join(&common, "/")
    }
}

/// Deepest directory containing every file; `.` at the root.
pub fn common_dir(files: &Vec<String>) -> (r: String)
    ensures
        r@ == common_of(dirs_of(files.deep_view())),
{
    let ghost view = files.deep_view();
    let mut dirs: Vec<String> = Vec::new();
    let mut k: usize = 0;
    while k < files.len()
        invariant
            k <= files.len(),
            dirs.len() == k,
            view == files.deep_view(),
            forall|j: int| 0 <= j < k ==> (#[trigger] dirs@[j])@ == dir_of(view[j]),
        decreases files.len() - k,
    {
        assert(view[k as int] == files@[k as int]@);
        dirs.push(dir(files[k].as_str()));
        k = k + 1;
    }
    assert(dirs.deep_view() =~= dirs_of(view));
    common_dir_of(&dirs)
}

/// What all directories share starts each of them.
pub proof fn shared_parts_start_each(dirs: Seq<Chars>, i: int)
    requires
        0 <= i < dirs.len(),
    ensures
        shared_parts(dirs).len() <= dir_names(dirs[i]).len(),
        forall|k: int| 0 <= k < shared_parts(dirs).len() ==> #[trigger] shared_parts(dirs)[k] == dir_names(dirs[i])[k],
    decreases dirs.len(),
{
    if dirs.len() > 1 {
        let less = dirs.drop_last();
        let rest = shared_parts(less);
        let last = dir_names(dirs.last());
        shared_len_bounds(rest, last, 0);
        if i < less.len() {
            shared_parts_start_each(less, i);
            assert(less[i] == dirs[i]);
            assert forall|k: int| 0 <= k < shared_parts(dirs).len() implies #[trigger] shared_parts(dirs)[k] == dir_names(
                dirs[i],
            )[k] by {
                assert(rest[k] == dir_names(less[i])[k]);
            }
        } else {
            assert forall|k: int| 0 <= k < shared_parts(dirs).len() implies #[trigger] shared_parts(dirs)[k] == last[k] by {
                assert(rest[k] == last[k]);
            }
        }
    }
}

// ---------- names ----------

/// A file name that says nothing by itself.
pub open spec fn generic_name(name: Chars) -> bool {
    name == "mod.rs"@ || name == "__init__.py"@ || starts(name, "index."@)
}

/// The file name, with its directory when the name alone says nothing.
pub open spec fn short_of(path: Chars) -> Chars {
    let name = base_of(path);
    let parent = base_of(without_trailing(path.take(path.len() - name.len()), "/"@));
    if generic_name(name) && parent.len() > 0 {
        path.skip(path.len() - name.len() - parent.len() - 1)
    } else {
        name
    }
}

/// The file name, with its directory when the name alone says nothing: `searcher/mod.rs`,
/// `dom/index.ts`, `pkg/__init__.py`.
pub fn short_name(path: &str) -> (r: String)
    ensures
        r@ == short_of(path@),
{
    let name = basename(path);
    let a = crate::text::chars(path);
    let n: usize = name.as_str().unicode_len();
    proof {
        base_is_short(path@);
    }
    let before = crate::text::slice(&a, 0, a.len() - n);
    assert(a@.subrange(0, a.len() - n) =~= path@.take(path@.len() - name@.len()));
    let parent = basename(trim_trailing(before.as_str(), "/").as_str());
    let generic = same(name.as_str(), "mod.rs") || same(name.as_str(), "__init__.py") || starts_with(
        name.as_str(),
        "index.",
    );
    if generic && !parent.as_str().is_empty() {
        let m: usize = parent.as_str().unicode_len();
        proof {
            trailing_is_short(before@);
            base_is_short(without_trailing(before@, "/"@));
        }
        crate::text::slice(&a, a.len() - n - m - 1, a.len())
    } else {
        name
    }
}

proof fn trailing_is_short(s: Chars)
    ensures
        without_trailing(s, "/"@).len() <= s.len(),
        s.len() > 0 && s.last() == '/' ==> without_trailing(s, "/"@).len() < s.len(),
    decreases s.len(),
{
    reveal_strlit("/");
    if s.len() > 0 && s.last() == '/' {
        assert(s.subrange(s.len() - 1, s.len() as int) =~= "/"@);
        assert(crate::text::ends(s, "/"@));
    }
    if crate::text::ends(s, "/"@) {
        trailing_is_short(s.take(s.len() - 1));
    }
}

proof fn base_is_short(path: Chars)
    ensures
        base_of(path).len() <= path.len(),
        base_of(path).len() < path.len() ==> path[path.len() - base_of(path).len() - 1] == '/',
{
    last_is_within(path, '/');
}

proof fn last_is_within(s: Chars, c: char)
    ensures
        crate::text::last_of(s, c) matches Some(i) ==> 0 <= i < s.len() && s[i] == c,
    decreases s.len(),
{
    if s.len() > 0 && s.last() != c {
        last_is_within(s.drop_last(), c);
    }
}

/// The first names of a list, the number of the others, and a star for a wildcard.
pub open spec fn shown_symbols(names: Seq<Chars>, glob: bool) -> Seq<Chars> {
    let first = if names.len() > 4 {
        names.take(4).push("+"@ + digits((names.len() - 4) as nat) + " more"@)
    } else {
        names
    };
    if glob {
        first.push("*"@)
    } else {
        first
    }
}

/// `EntityRef`, `A, B, C, D, +3 more`, `*` for a wildcard.
pub open spec fn symbols_text(names: Seq<Chars>, glob: bool) -> Chars {
    joined(shown_symbols(names, glob), ", "@)
}

/// `EntityRef`, `A, B, C, D, +3 more`, `*` for a wildcard.
pub fn symbol_names(names: &Vec<String>, glob: bool) -> (o: String)
    ensures
        o@ == symbols_text(names.deep_view(), glob),
{
    let ghost view = names.deep_view();
    assert(view.len() == names.len());
    let mut shown: Vec<String> = Vec::new();
    let most: usize = if names.len() > 4 {
        4
    } else {
        names.len()
    };
    let mut k: usize = 0;
    while k < most
        invariant
            k <= most <= names.len(),
            shown.len() == k,
            view == names.deep_view(),
            forall|j: int| 0 <= j < k ==> (#[trigger] shown@[j])@ == view[j],
        decreases most - k,
    {
        assert(view[k as int] == names@[k as int]@);
        shown.push(names[k].as_str().to_owned());
        k = k + 1;
    }
    assert(shown.deep_view() =~= view.take(most as int));
    if names.len() > 4 {
        put(&mut shown, plus(plus("+".to_owned(), decimal(names.len() - 4).as_str()), " more"));
    } else {
        assert(view.take(most as int) =~= view);
    }
    if glob {
        put(&mut shown, "*".to_owned());
    }
    join(&shown, ", ")
}

/// `1 symbol`, `3 symbols`, `>= 20 symbols` for a wildcard.
pub open spec fn count_text(e: EdgeView) -> Chars {
    if e.glob {
        ">= "@ + digits(e.symbols as nat) + " symbols"@
    } else if e.symbols == 1 {
        "1 symbol"@
    } else {
        digits(e.symbols as nat) + " symbols"@
    }
}

/// `1 symbol`, `3 symbols`, `>= 20 symbols` for a wildcard.
pub fn symbol_count(e: &Edge) -> (o: String)
    ensures
        o@ == count_text(e.deep_view()),
{
    if e.glob {
        plus(plus(">= ".to_owned(), decimal(e.symbols as usize).as_str()), " symbols")
    } else if e.symbols == 1 {
        "1 symbol".to_owned()
    } else {
        plus(decimal(e.symbols as usize), " symbols")
    }
}

// ---------- cycles ----------

/// The plural of a word.
pub open spec fn many(n: nat) -> Chars {
    if n == 1 {
        Seq::empty()
    } else {
        "s"@
    }
}

fn plural(n: usize) -> (o: String)
    ensures
        o@ == many(n as nat),
{
    if n == 1 {
        String::new()
    } else {
        "s".to_owned()
    }
}

/// Where a cycle is.
pub open spec fn cycle_head(c: CycleView) -> Chars {
    digits(c.members.len()) + "-file cycle "@ + (if c.dir == "."@ {
        "at the repo root"@
    } else {
        "in "@ + c.dir
    })
}

/// What is said of the imports that are left out.
pub open spec fn ignored_text(c: CutsView) -> Chars {
    digits(c.type_only_edges) + " type-only import"@ + many(c.type_only_edges) + " ignored, largest runtime cycle "@
        + digits(c.base)
}

/// What is said of the single cut.
pub open spec fn single_text(c: CutsView) -> Chars {
    match c.single {
        Some(s) => "cheapest cut "@ + s.edge.from + " -> "@ + s.edge.to + " imports "@ + count_text(s.edge) + " ("@
            + symbols_text(s.edge.names, s.edge.glob) + ", line "@ + digits(s.edge.line as nat)
            + ") -> largest remaining cycle "@ + digits(s.largest_after),
        None => if c.base >= 2 {
            "no cuttable import: all "@ + digits(c.mod_edges) + " internal edges are mod declarations"@
        } else {
            "no runtime cycle"@
        },
    }
}

/// What is said of the hub cut.
pub open spec fn hub_text(h: HubCutView) -> Chars {
    "hub cut: drop "@ + short_of(h.member) + "'s "@ + digits(h.imports) + " import"@ + many(h.imports) + " ("@ + (
    if h.glob {
        ">= "@
    } else {
        Seq::empty()
    }) + digits(h.symbols as nat) + " symbols) -> "@ + digits(h.largest_after)
}

/// The parts of a headline.
pub open spec fn head_parts(c: CutsView, members: nat) -> Seq<Chars> {
    let a = if c.type_only_edges > 0 && c.base < members {
        seq![ignored_text(c)]
    } else {
        Seq::empty()
    };
    let b = a.push(single_text(c));
    let d = match c.hub {
        Some(h) => b.push(hub_text(h)),
        None => b,
    };
    if c.no_single_break && c.base >= 2 {
        d.push("no single import breaks this cycle"@)
    } else {
        d
    }
}

/// The one-line block header.
pub open spec fn headline_of(c: CycleView) -> Chars {
    match c.cuts {
        None => cycle_head(c),
        Some(cuts) => cycle_head(c) + ": "@ + joined(head_parts(cuts, c.members.len()), "; "@),
    }
}

fn say_single(c: &Cuts) -> (o: String)
    ensures
        o@ == single_text(c.deep_view()),
{
    match &c.single {
        Some(s) => {
            let mut o = "cheapest cut ".to_owned();
            o.append(s.edge.from.as_str());
            o.append(" -> ");
            o.append(s.edge.to.as_str());
            o.append(" imports ");
            o.append(symbol_count(&s.edge).as_str());
            o.append(" (");
            o.append(symbol_names(&s.edge.names, s.edge.glob).as_str());
            o.append(", line ");
            o.append(decimal(s.edge.line).as_str());
            o.append(") -> largest remaining cycle ");
            o.append(decimal(s.largest_after).as_str());
            o
        },
        None => if c.base >= 2 {
            plus(
                plus("no cuttable import: all ".to_owned(), decimal(c.mod_edges).as_str()),
                " internal edges are mod declarations",
            )
        } else {
            "no runtime cycle".to_owned()
        },
    }
}

fn say_hub(h: &HubCut) -> (o: String)
    ensures
        o@ == hub_text(h.deep_view()),
{
    let mut o = "hub cut: drop ".to_owned();
    o.append(short_name(h.member.as_str()).as_str());
    o.append("'s ");
    o.append(decimal(h.imports).as_str());
    o.append(" import");
    o.append(plural(h.imports).as_str());
    o.append(" (");
    let mut floor = String::new();
    if h.glob {
        floor = ">= ".to_owned();
    }
    o.append(floor.as_str());
    o.append(decimal(h.symbols as usize).as_str());
    o.append(" symbols) -> ");
    o.append(decimal(h.largest_after).as_str());
    o
}

/// A cut as the cut set names it.
pub open spec fn cut_text(e: EdgeCutView) -> Chars {
    e.edge.from + " -> "@ + e.edge.to + " ("@ + symbols_text(e.edge.names, e.edge.glob) + ")"@
}

/// The line on a cut set.
pub open spec fn cut_set_text(set: Seq<EdgeCutView>) -> Chars {
    "cut set of "@ + digits(set.len()) + " import"@ + many(set.len()) + " dissolves it: "@ + joined(
        Seq::new(set.len(), |i: int| cut_text(set[i])),
        ", "@,
    )
}

/// The clause on a member of the cheapest cut.
pub open spec fn clause_text(s: EdgeCutView) -> Chars {
    "cut: "@ + short_of(s.edge.from) + " -> "@ + short_of(s.edge.to) + ", "@ + symbols_text(s.edge.names, s.edge.glob)
}

/// The line on a cycle's cut set, where there is one.
pub open spec fn cut_set_line_of(c: CycleView) -> Option<Chars> {
    match c.cuts {
        Some(cuts) => if cuts.cut_set.len() == 0 {
            None
        } else {
            Some(cut_set_text(cuts.cut_set))
        },
        None => None,
    }
}

/// The clause on a member, where it is on the cheapest cut.
pub open spec fn cut_clause_of(c: CycleView, member: Chars) -> Option<Chars> {
    match c.cuts {
        Some(cuts) => match cuts.single {
            Some(s) => if s.edge.from == member || s.edge.to == member {
                Some(clause_text(s))
            } else {
                None
            },
            None => None,
        },
        None => None,
    }
}

impl Cycle {
    /// The one-line block header: `15-file cycle in src: cheapest cut src/paths.rs -> src/plan.rs
    /// imports 1 symbol (EntityRef, line 16) -> largest remaining cycle 12; hub cut: drop
    /// paths.rs's 4 imports (9 symbols) -> 11; no single import breaks this cycle`.
    pub fn headline(&self) -> (o: String)
        ensures
            o@ == headline_of(self.deep_view()),
    {
        assert(self.members.len() == self.members.deep_view().len());
        let mut o = decimal(self.members.len());
        o.append("-file cycle ");
        let at = if same(self.dir.as_str(), ".") {
            "at the repo root".to_owned()
        } else {
            plus("in ".to_owned(), self.dir.as_str())
        };
        o.append(at.as_str());
        if let Some(c) = &self.cuts {
            let mut parts: Vec<String> = Vec::new();
            assert(parts.deep_view() =~= Seq::<Chars>::empty());
            if c.type_only_edges > 0 && c.base < self.members.len() {
                let mut x = decimal(c.type_only_edges);
                x.append(" type-only import");
                x.append(plural(c.type_only_edges).as_str());
                x.append(" ignored, largest runtime cycle ");
                x.append(decimal(c.base).as_str());
                put(&mut parts, x);
                assert(parts.deep_view() =~= seq![ignored_text(c.deep_view())]);
            }
            put(&mut parts, say_single(c));
            if let Some(h) = &c.hub {
                put(&mut parts, say_hub(h));
            }
            if c.no_single_break && c.base >= 2 {
                put(&mut parts, "no single import breaks this cycle".to_owned());
            }
            o.append(": ");
            o.append(join(&parts, "; ").as_str());
        }
        o
    }

    /// `cut set of 3 imports dissolves it: src/a.rs -> src/b.rs (X), …`, when the greedy set did.
    pub fn cut_set_line(&self) -> (r: Option<String>)
        ensures
            r.deep_view() == cut_set_line_of(self.deep_view()),
    {
        match &self.cuts {
            None => None,
            Some(c) => {
                let ghost view = c.cut_set.deep_view();
                assert(view.len() == c.cut_set.len());
                if c.cut_set.len() == 0 {
                    return None;
                }
                let mut list: Vec<String> = Vec::new();
                let mut k: usize = 0;
                while k < c.cut_set.len()
                    invariant
                        k <= c.cut_set.len(),
                        list.len() == k,
                        view == c.cut_set.deep_view(),
                        forall|j: int| 0 <= j < k ==> (#[trigger] list@[j])@ == cut_text(view[j]),
                    decreases c.cut_set.len() - k,
                {
                    let e: &EdgeCut = &c.cut_set[k];
                    assert(view[k as int] == e.deep_view());
                    let mut x = e.edge.from.as_str().to_owned();
                    x.append(" -> ");
                    x.append(e.edge.to.as_str());
                    x.append(" (");
                    x.append(symbol_names(&e.edge.names, e.edge.glob).as_str());
                    x.append(")");
                    list.push(x);
                    k = k + 1;
                }
                assert(list.deep_view() =~= Seq::new(view.len(), |i: int| cut_text(view[i])));
                let mut o = "cut set of ".to_owned();
                o.append(decimal(c.cut_set.len()).as_str());
                o.append(" import");
                o.append(plural(c.cut_set.len()).as_str());
                o.append(" dissolves it: ");
                o.append(join(&list, ", ").as_str());
                Some(o)
            },
        }
    }

    /// `cut: paths.rs -> plan.rs, EntityRef` for a member on the cheapest cut edge; the report
    /// joins it into the member's reason.
    pub fn cut_clause(&self, member: &str) -> (r: Option<String>)
        ensures
            r.deep_view() == cut_clause_of(self.deep_view(), member@),
    {
        match &self.cuts {
            None => None,
            Some(c) => match &c.single {
                None => None,
                Some(s) => if same(s.edge.from.as_str(), member) || same(s.edge.to.as_str(), member) {
                    let mut o = "cut: ".to_owned();
                    o.append(short_name(s.edge.from.as_str()).as_str());
                    o.append(" -> ");
                    o.append(short_name(s.edge.to.as_str()).as_str());
                    o.append(", ");
                    o.append(symbol_names(&s.edge.names, s.edge.glob).as_str());
                    Some(o)
                } else {
                    None
                },
            },
        }
    }
}

} // verus!
