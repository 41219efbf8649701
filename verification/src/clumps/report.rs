//! The report on parameter clumps.

use vstd::prelude::*;

use crate::clumps::clump::{
    all_merged_ok, clump_of, count_of, make_clump, merge, merged_of, sites_line, sites_text, tail, tail_of, value_of,
    variants_of, Clump, ClumpView, Member, MemberView, MergedView,
};
use crate::clumps::groups::{all_groups, group_all};
use crate::clumps::side::{FileSide, FnView, SideView};
use crate::config::Clumps;
use crate::order::{ordered, stable_order, Key, KeyView};
use crate::sorting::{sort_rows, sorted_rows, sorted_rows_are_sorted, sorted_rows_hold, Row};
use crate::text::{
    before, chars, decimal, digits, is_upper, join, joined, less, put, same, small, starts_with, string, to_small, to_upper,
    upper, uppercase, Chars,
};
use crate::tree::ints;
use crate::units::{bare, bare_of};

verus! {

/// The clumps of one file.
pub struct FileClumps {
    /// This file's functions that are members of a reported clump.
    pub members: usize,
    /// The tuple and the line of each member function of the file.
    pub clumps: Vec<(String, usize)>,
    pub reasons: Vec<String>,
}

/// A [`FileClumps`] by its contents.
pub struct FileView {
    pub members: nat,
    pub clumps: Seq<(Chars, usize)>,
    pub reasons: Seq<Chars>,
}

impl DeepView for FileClumps {
    type V = FileView;

    open spec fn deep_view(&self) -> FileView {
        FileView {
            members: self.members as nat,
            clumps: self.clumps.deep_view(),
            reasons: self.reasons.deep_view(),
        }
    }
}

/// Counts over all files.
#[derive(Clone, Copy)]
pub struct Totals {
    /// Functions analysed.
    pub functions: usize,
    pub in_clumps: usize,
    pub clumps: usize,
    /// Files with a member function.
    pub files: usize,
    /// Functions with a parameter that the unused prefix marks.
    pub silenced_functions: usize,
    pub skipped_trait_impls: usize,
    pub skipped_protocol: usize,
    pub skipped_other: usize,
    pub skipped_duplicates: usize,
}

/// The clumps of a set of files.
pub struct ClumpsReport {
    pub totals: Totals,
    pub notes: Vec<String>,
    /// Members descending, files descending, then the tuple.
    pub clumps: Vec<Clump>,
    /// In the order of their paths.
    pub files: Vec<(String, FileClumps)>,
}

/// A [`ClumpsReport`] by its contents.
pub struct ReportView {
    pub totals: Totals,
    pub notes: Seq<Chars>,
    pub clumps: Seq<ClumpView>,
    pub files: Seq<(Chars, FileView)>,
}

impl DeepView for ClumpsReport {
    type V = ReportView;

    open spec fn deep_view(&self) -> ReportView {
        ReportView {
            totals: self.totals,
            notes: self.notes.deep_view(),
            clumps: self.clumps.deep_view(),
            files: self.files.deep_view(),
        }
    }
}

impl Default for ClumpsReport {
    /// Nothing to report.
    fn default() -> (r: Self)
        ensures
            r.totals == no_totals(),
            r.notes@.len() == 0,
            r.clumps@.len() == 0,
            r.files@.len() == 0,
    {
        ClumpsReport { totals: zero(), notes: Vec::new(), clumps: Vec::new(), files: Vec::new() }
    }
}

// ---------- names ----------

/// The pieces of a name from `i` on, with the one that is open.
pub open spec fn pieces_from(s: Chars, i: int, cur: Chars) -> Seq<Chars>
    decreases s.len() - i,
{
    if i < 0 || i >= s.len() {
        if cur.len() > 0 {
            seq![cur]
        } else {
            Seq::empty()
        }
    } else if s[i] == '_' || s[i] == '-' {
        if cur.len() > 0 {
            seq![cur] + pieces_from(s, i + 1, Seq::empty())
        } else {
            pieces_from(s, i + 1, cur)
        }
    } else if uppercase(s[i]) && cur.len() > 0 {
        seq![cur] + pieces_from(s, i + 1, seq![small(s[i])])
    } else {
        pieces_from(s, i + 1, cur.push(small(s[i])))
    }
}

/// Name pieces: `plan_repair` → plan, repair; `printEntryFormat` → print, entry, format.
pub open spec fn pieces_of(s: Chars) -> Seq<Chars> {
    pieces_from(s, 0, Seq::empty())
}

/// Name pieces.
pub fn pieces(name: &str) -> (out: Vec<String>)
    ensures
        out.deep_view() == pieces_of(name@),
{
    let a = chars(name);
    let ghost whole = pieces_of(name@);
    let mut out: Vec<String> = Vec::new();
    let mut cur: Vec<char> = Vec::new();
    let mut i: usize = 0;
    assert(cur@ =~= Seq::<char>::empty());
    assert(out.deep_view() + whole =~= whole);
    while i < a.len()
        invariant
            i <= a.len(),
            a@ == name@,
            whole == out.deep_view() + pieces_from(a@, i as int, cur@),
        decreases a.len() - i,
    {
        let c: char = a[i];
        let ghost was = out.deep_view();
        let ghost open = cur@;
        if c == '_' || c == '-' {
            if cur.len() > 0 {
                put(&mut out, string(&cur));
                cur = Vec::new();
                proof {
                    assert(cur@ =~= Seq::<char>::empty());
                    let rest = pieces_from(a@, i + 1, Seq::empty());
                    assert(was + (seq![open] + rest) =~= out.deep_view() + rest);
                }
            }
        } else if is_upper(c) && cur.len() > 0 {
            put(&mut out, string(&cur));
            cur = Vec::new();
            cur.push(to_small(c));
            proof {
                assert(cur@ =~= seq![small(c)]);
                let rest = pieces_from(a@, i + 1, seq![small(c)]);
                assert(was + (seq![open] + rest) =~= out.deep_view() + rest);
            }
        } else {
            cur.push(to_small(c));
        }
        i = i + 1;
    }
    let ghost was = out.deep_view();
    if cur.len() > 0 {
        put(&mut out, string(&cur));
        assert(was + seq![cur@] =~= out.deep_view());
    } else {
        assert(was + Seq::<Chars>::empty() =~= was);
    }
    out
}

/// How many leading pieces two names share.
pub open spec fn common(a: Seq<Chars>, b: Seq<Chars>, i: int) -> nat
    decreases a.len() - i,
{
    if 0 <= i < a.len() && i < b.len() && a[i] == b[i] {
        1 + common(a, b, i + 1)
    } else {
        0
    }
}

/// How many leading pieces the first `n` members share with the first.
pub open spec fn shared_pieces(ms: Seq<MemberView>, n: int) -> nat
    decreases n,
{
    let first = pieces_of(bare(ms[0].name));
    if n <= 1 {
        first.len()
    } else {
        let was = shared_pieces(ms, n - 1);
        let c = common(first, pieces_of(bare(ms[n - 1].name)), 0);
        if c < was {
            c
        } else {
            was
        }
    }
}

/// A piece with a capital.
pub open spec fn capital(s: Chars) -> Chars {
    if s.len() == 0 {
        s
    } else {
        upper(s.subrange(0, 1)) + s.subrange(1, s.len() as int)
    }
}

/// The first `n` pieces with capitals.
pub open spec fn capitals(ps: Seq<Chars>, n: int) -> Chars
    decreases n,
{
    if n <= 0 {
        Seq::empty()
    } else {
        capitals(ps, n - 1) + capital(ps[n - 1])
    }
}

/// `PlanInput` from members named `plan_*`; none when their names share no leading piece.
pub open spec fn struct_name_of(ms: Seq<MemberView>) -> Option<Chars> {
    if ms.len() == 0 {
        None
    } else {
        let n = shared_pieces(ms, ms.len() as int);
        if n == 0 {
            None
        } else {
            Some(capitals(pieces_of(bare(ms[0].name)), n as int) + "Input"@)
        }
    }
}

fn count_common(a: &Vec<String>, b: &Vec<String>) -> (r: usize)
    ensures
        r == common(a.deep_view(), b.deep_view(), 0),
        r <= a.len(),
{
    let ghost va = a.deep_view();
    let ghost vb = b.deep_view();
    let mut i: usize = 0;
    while i < a.len() && i < b.len()
        invariant
            i <= a.len(),
            va == a.deep_view(),
            vb == b.deep_view(),
            common(va, vb, 0) == i + common(va, vb, i as int),
        decreases a.len() - i,
    {
        assert(va[i as int] == a@[i as int]@);
        assert(vb[i as int] == b@[i as int]@);
        if !same(a[i].as_str(), b[i].as_str()) {
            return i;
        }
        i = i + 1;
    }
    i
}

fn capitalize(s: &str) -> (r: String)
    ensures
        r@ == capital(s@),
{
    let a = chars(s);
    if a.len() == 0 {
        return s.to_owned();
    }
    let head = crate::text::slice(&a, 0, 1);
    let rest = crate::text::slice(&a, 1, a.len());
    let mut r = to_upper(head.as_str());
    r.append(rest.as_str());
    r
}

/// The name of a struct that would hold a clump's parameters.
pub fn struct_name(ms: &Vec<Member>) -> (r: Option<String>)
    ensures
        r.deep_view() == struct_name_of(ms.deep_view()),
{
    let ghost view = ms.deep_view();
    if ms.len() == 0 {
        return None;
    }
    assert(view[0] == ms@[0].deep_view());
    let first = pieces(bare_of(ms[0].name.as_str()).as_str());
    let ghost fv = first.deep_view();
    let mut n: usize = first.len();
    let mut k: usize = 1;
    while k < ms.len()
        invariant
            1 <= k <= ms.len(),
            view == ms.deep_view(),
            fv == first.deep_view(),
            fv == pieces_of(bare(view[0].name)),
            n <= first.len(),
            n == shared_pieces(view, k as int),
        decreases ms.len() - k,
    {
        assert(view[k as int] == ms@[k as int].deep_view());
        let p = pieces(bare_of(ms[k].name.as_str()).as_str());
        let c: usize = count_common(&first, &p);
        if c < n {
            n = c;
        }
        k = k + 1;
    }
    if n == 0 {
        return None;
    }
    let mut s = String::new();
    let mut k: usize = 0;
    assert(s@ =~= Seq::<char>::empty());
    while k < n
        invariant
            k <= n <= first.len(),
            fv == first.deep_view(),
            s@ == capitals(fv, k as int),
        decreases n - k,
    {
        assert(fv[k as int] == first@[k as int]@);
        s.append(capitalize(first[k].as_str()).as_str());
        k = k + 1;
    }
    s.append("Input");
    Some(s)
}

// ---------- reasons ----------

/// The clauses on unused slots, of the first `n` slots.
pub open spec fn unused_reasons(params: Seq<Chars>, unused: Seq<(Chars, usize)>, total: nat, n: int) -> Seq<Chars>
    decreases n,
{
    if n <= 0 {
        Seq::empty()
    } else {
        let was = unused_reasons(params, unused, total, n - 1);
        match value_of(unused, params[n - 1], 0) {
            Some(k) => was.push(
                if k == total {
                    "`"@ + params[n - 1] + "` is unused in all "@ + digits(total)
                } else {
                    "`"@ + params[n - 1] + "` is unused in "@ + digits(k as nat) + " of "@ + digits(total)
                },
            ),
            None => was,
        }
    }
}

/// Those clauses and the ones on varying slots, of the first `n` slots.
pub open spec fn varying_reasons(was: Seq<Chars>, params: Seq<Chars>, variants: Seq<(Chars, Seq<Chars>)>, n: int) -> Seq<Chars>
    decreases n,
{
    if n <= 0 {
        was
    } else {
        let list = varying_reasons(was, params, variants, n - 1);
        match value_of(variants, params[n - 1], 0) {
            Some(v) => list.push("`"@ + params[n - 1] + "` varies ("@ + joined(v, ", "@) + ")"@),
            None => list,
        }
    }
}

/// The clauses of a reason.
pub open spec fn reason_clauses(c: ClumpView) -> Seq<Chars> {
    let n = c.params.len() as int;
    let list = varying_reasons(unused_reasons(c.params, c.unused_slots, c.functions.len(), n), c.params, c.variants, n);
    match c.single_caller {
        Some(s) => list.push("all called from `"@ + s + "`"@),
        None => list,
    }
}

/// How many of the first `n` slots every member leaves unused.
pub open spec fn fully_unused(unused: Seq<(Chars, usize)>, total: nat, n: int) -> nat
    decreases n,
{
    if n <= 0 {
        0
    } else {
        fully_unused(unused, total, n - 1) + (if unused[n - 1].1 == total {
            1nat
        } else {
            0nat
        })
    }
}

/// A text that begins with a vowel.
pub open spec fn vowel(s: Chars) -> bool {
    s.len() > 0 && (s[0] == 'A' || s[0] == 'E' || s[0] == 'I' || s[0] == 'O' || s[0] == 'U')
}

/// What to do about a clump.
pub open spec fn advice(c: ClumpView) -> Chars {
    let what = match struct_name_of(c.functions) {
        Some(s) => s,
        None => "shared input"@,
    };
    let gone = fully_unused(c.unused_slots, c.functions.len(), c.unused_slots.len() as int);
    "introduce "@ + (if vowel(what) {
        "an"@
    } else {
        "a"@
    }) + " "@ + what + " struct"@ + (if gone == 0 {
        ""@
    } else if gone == 1 {
        " or drop the slot"@
    } else {
        " or drop the slots"@
    })
}

/// A clump's parameters in brackets.
pub open spec fn tuple_of(c: ClumpView) -> Chars {
    "("@ + joined(c.params, ", "@) + ")"@
}

/// Where a clump recurs.
pub open spec fn scope_of(c: ClumpView) -> Chars {
    if c.files == 1 {
        "in this file"@
    } else {
        "across "@ + digits(c.files as nat) + " files"@
    }
}

/// The reason that a clump gives for each of its files.
pub open spec fn reason_of(c: ClumpView, most: usize) -> Chars {
    "parameters "@ + tuple_of(c) + " recur in "@ + digits(c.functions.len()) + " functions "@ + scope_of(c) + " ("@
        + sites_line(c.functions, most) + ")"@ + tail_of(reason_clauses(c)) + " - "@ + advice(c)
}

fn make_reasons(c: &Clump) -> (out: Vec<String>)
    ensures
        out.deep_view() == reason_clauses(c.deep_view()),
{
    let params = &c.params;
    let ghost pv = params.deep_view();
    let ghost uv = c.unused_slots.deep_view();
    let total: usize = c.functions.len();
    assert(total == c.deep_view().functions.len());
    let mut out: Vec<String> = Vec::new();
    let mut n: usize = 0;
    assert(out.deep_view() =~= Seq::<Chars>::empty());
    while n < params.len()
        invariant
            n <= params.len(),
            pv == params.deep_view(),
            uv == c.unused_slots.deep_view(),
            out.deep_view() == unused_reasons(pv, uv, total as nat, n as int),
        decreases params.len() - n,
    {
        assert(pv[n as int] == params@[n as int]@);
        if let Some(k) = count_of(&c.unused_slots, params[n].as_str()) {
            let mut s = "`".to_owned();
            s.append(params[n].as_str());
            if k == total {
                s.append("` is unused in all ");
                s.append(decimal(total).as_str());
            } else {
                s.append("` is unused in ");
                s.append(decimal(k).as_str());
                s.append(" of ");
                s.append(decimal(total).as_str());
            }
            put(&mut out, s);
        }
        n = n + 1;
    }
    let ghost first = out.deep_view();
    let ghost vv = c.variants.deep_view();
    let mut n: usize = 0;
    while n < params.len()
        invariant
            n <= params.len(),
            pv == params.deep_view(),
            vv == c.variants.deep_view(),
            out.deep_view() == varying_reasons(first, pv, vv, n as int),
        decreases params.len() - n,
    {
        assert(pv[n as int] == params@[n as int]@);
        if let Some(v) = variants_of(&c.variants, params[n].as_str()) {
            let mut s = "`".to_owned();
            s.append(params[n].as_str());
            s.append("` varies (");
            s.append(join(v, ", ").as_str());
            s.append(")");
            put(&mut out, s);
        }
        n = n + 1;
    }
    if let Some(x) = &c.single_caller {
        let mut s = "all called from `".to_owned();
        s.append(x.as_str());
        s.append("`");
        put(&mut out, s);
    }
    out
}

fn make_advice(c: &Clump) -> (r: String)
    ensures
        r@ == advice(c.deep_view()),
{
    let ghost uv = c.unused_slots.deep_view();
    let total: usize = c.functions.len();
    assert(total == c.deep_view().functions.len());
    let what = match struct_name(&c.functions) {
        Some(s) => s,
        None => "shared input".to_owned(),
    };
    let mut gone: usize = 0;
    let mut n: usize = 0;
    while n < c.unused_slots.len()
        invariant
            n <= c.unused_slots.len(),
            uv == c.unused_slots.deep_view(),
            gone <= n,
            gone == fully_unused(uv, total as nat, n as int),
        decreases c.unused_slots.len() - n,
    {
        assert(uv[n as int] == c.unused_slots@[n as int].deep_view());
        if c.unused_slots[n].1 == total {
            gone = gone + 1;
        }
        n = n + 1;
    }
    let a = chars(what.as_str());
    let open = a.len() > 0 && (a[0] == 'A' || a[0] == 'E' || a[0] == 'I' || a[0] == 'O' || a[0] == 'U');
    let mut r = "introduce ".to_owned();
    r.append(if open {
        "an"
    } else {
        "a"
    });
    r.append(" ");
    r.append(what.as_str());
    r.append(" struct");
    r.append(if gone == 0 {
        ""
    } else if gone == 1 {
        " or drop the slot"
    } else {
        " or drop the slots"
    });
    r
}

fn make_tuple(c: &Clump) -> (r: String)
    ensures
        r@ == tuple_of(c.deep_view()),
{
    let mut r = "(".to_owned();
    r.append(join(&c.params, ", ").as_str());
    r.append(")");
    r
}

fn make_reason(c: &Clump, most: usize) -> (r: String)
    ensures
        r@ == reason_of(c.deep_view(), most),
{
    let ghost cv = c.deep_view();
    assert(c.functions.len() == cv.functions.len());
    let scope = if c.files == 1 {
        "in this file".to_owned()
    } else {
        let mut s = "across ".to_owned();
        s.append(decimal(c.files).as_str());
        s.append(" files");
        s
    };
    assert(scope@ == scope_of(cv));
    let clauses = make_reasons(c);
    let mut r = "parameters ".to_owned();
    r.append(make_tuple(c).as_str());
    r.append(" recur in ");
    r.append(decimal(c.functions.len()).as_str());
    r.append(" functions ");
    r.append(scope.as_str());
    r.append(" (");
    r.append(sites_text(&c.functions, most).as_str());
    r.append(")");
    r.append(tail(&clauses).as_str());
    r.append(" - ");
    r.append(make_advice(c).as_str());
    r
}

// ---------- files ----------

/// The files met so far, with the functions that are members.
pub struct Filing {
    pub files: Seq<(Chars, FileView)>,
    pub fns: Seq<(Chars, Chars)>,
}

/// The first file, from `i` on, of a path.
pub open spec fn file_at(files: Seq<(Chars, FileView)>, path: Chars, i: int) -> Option<int>
    decreases files.len() - i,
{
    if i < 0 || i >= files.len() {
        None
    } else if files[i].0 == path {
        Some(i)
    } else {
        file_at(files, path, i + 1)
    }
}

/// A file with nothing.
pub open spec fn no_file() -> FileView {
    FileView { members: 0, clumps: Seq::empty(), reasons: Seq::empty() }
}

/// A file with one more member: counted once over all clumps, with the reason once for each clump.
pub open spec fn filed(f: FileView, tuple: Chars, line: usize, new: bool, reason: Option<Chars>) -> FileView {
    FileView {
        members: if new {
            f.members + 1
        } else {
            f.members
        },
        clumps: f.clumps.push((tuple, line)),
        reasons: match reason {
            Some(r) => f.reasons.push(r),
            None => f.reasons,
        },
    }
}

/// One of the first `k` members lies in a file.
pub open spec fn met_file(ms: Seq<MemberView>, path: Chars, k: int) -> bool {
    exists|j: int| 0 <= j < k && (#[trigger] ms[j]).file == path
}

/// The files with member `k` of a clump.
pub open spec fn with_member(s: Filing, c: ClumpView, k: int, most: usize) -> Filing {
    let m = c.functions[k];
    let new = !s.fns.contains((m.file, m.name));
    let reason = if met_file(c.functions, m.file, k) {
        None
    } else {
        Some(reason_of(c, most))
    };
    Filing {
        files: match file_at(s.files, m.file, 0) {
            Some(i) => s.files.update(i, (m.file, filed(s.files[i].1, tuple_of(c), m.line, new, reason))),
            None => s.files.push((m.file, filed(no_file(), tuple_of(c), m.line, new, reason))),
        },
        fns: if new {
            s.fns.push((m.file, m.name))
        } else {
            s.fns
        },
    }
}

/// The files with the members from `k` on of a clump.
pub open spec fn with_members(s: Filing, c: ClumpView, k: int, most: usize) -> Filing
    decreases c.functions.len() - k,
{
    if k < 0 || k >= c.functions.len() {
        s
    } else {
        with_members(with_member(s, c, k, most), c, k + 1, most)
    }
}

/// The files with the first `n` clumps.
pub open spec fn filing_of(clumps: Seq<ClumpView>, most: usize, n: int) -> Filing
    decreases n,
{
    if n <= 0 {
        Filing { files: Seq::empty(), fns: Seq::empty() }
    } else {
        with_members(filing_of(clumps, most, n - 1), clumps[n - 1], 0, most)
    }
}

/// The keys that order a file's member functions by line, then tuple.
pub open spec fn entry_keys(s: Seq<(Chars, usize)>) -> Seq<KeyView> {
    Seq::new(s.len(), |i: int| KeyView { a: s[i].1, b: 0, s: s[i].0, c: 0 })
}

/// A file's member functions in the order of their lines, then tuples.
pub open spec fn entries_sorted(s: Seq<(Chars, usize)>) -> Seq<(Chars, usize)> {
    Seq::new(s.len(), |i: int| s[ordered(entry_keys(s), s.len() as int)[i]])
}

/// At most so many reasons, then how many more there are.
pub open spec fn cut(reasons: Seq<Chars>, max: usize) -> Seq<Chars> {
    if reasons.len() > max {
        reasons.take(max as int).push(
            "(+"@ + digits((reasons.len() - max) as nat) + " more parameter clumps in clumps)"@,
        )
    } else {
        reasons
    }
}

/// A file as it is reported.
pub open spec fn finished(f: FileView, cfg: Clumps) -> FileView {
    FileView { members: f.members, clumps: entries_sorted(f.clumps), reasons: cut(f.reasons, cfg.max_reported_per_file) }
}

/// The keys that order files by path.
pub open spec fn file_keys(s: Seq<(Chars, FileView)>) -> Seq<KeyView> {
    Seq::new(s.len(), |i: int| KeyView { a: 0, b: 0, s: s[i].0, c: 0 })
}

/// The files as they are reported, in the order of their paths.
pub open spec fn files_sorted(s: Seq<(Chars, FileView)>, cfg: Clumps) -> Seq<(Chars, FileView)> {
    Seq::new(
        s.len(),
        |i: int|
            {
                let f = s[ordered(file_keys(s), s.len() as int)[i]];
                (f.0, finished(f.1, cfg))
            },
    )
}

fn find_file(files: &Vec<(String, FileClumps)>, path: &str) -> (r: Option<usize>)
    ensures
        (match r {
            Some(i) => Some(i as int),
            None => None,
        }) == file_at(files.deep_view(), path@, 0),
        r matches Some(i) ==> i < files.len() && files@[i as int].0@ == path@,
{
    let ghost view = files.deep_view();
    let mut i: usize = 0;
    while i < files.len()
        invariant
            i <= files.len(),
            view == files.deep_view(),
            file_at(view, path@, 0) == file_at(view, path@, i as int),
        decreases files.len() - i,
    {
        assert(view[i as int] == files@[i as int].deep_view());
        if same(files[i].0.as_str(), path) {
            return Some(i);
        }
        i = i + 1;
    }
    None
}

fn has_fn(fns: &Vec<(String, String)>, file: &str, name: &str) -> (r: bool)
    ensures
        r == fns.deep_view().contains((file@, name@)),
{
    let ghost view = fns.deep_view();
    let mut i: usize = 0;
    while i < fns.len()
        invariant
            i <= fns.len(),
            view == fns.deep_view(),
            forall|j: int| 0 <= j < i ==> #[trigger] view[j] != (file@, name@),
        decreases fns.len() - i,
    {
        assert(view[i as int] == fns@[i as int].deep_view());
        if same(fns[i].0.as_str(), file) && same(fns[i].1.as_str(), name) {
            assert(view[i as int] == (file@, name@));
            return true;
        }
        i = i + 1;
    }
    false
}

fn is_met(ms: &Vec<Member>, path: &str, k: usize) -> (r: bool)
    requires
        k <= ms.len(),
    ensures
        r == met_file(ms.deep_view(), path@, k as int),
{
    let ghost view = ms.deep_view();
    let mut j: usize = 0;
    while j < k
        invariant
            j <= k <= ms.len(),
            view == ms.deep_view(),
            forall|i: int| 0 <= i < j ==> (#[trigger] view[i]).file != path@,
        decreases k - j,
    {
        assert(view[j as int] == ms@[j as int].deep_view());
        if same(ms[j].file.as_str(), path) {
            assert(view[j as int].file == path@);
            return true;
        }
        j = j + 1;
    }
    false
}

/// The functions counted so far bound every file's count.
spec fn bounded(files: Seq<(Chars, FileView)>, n: nat) -> bool {
    forall|i: int| 0 <= i < files.len() ==> (#[trigger] files[i]).1.members <= n
}

#[verifier::rlimit(40)]
fn file_member(
    files: &mut Vec<(String, FileClumps)>,
    fns: &mut Vec<(String, String)>,
    c: &Clump,
    k: usize,
    tuple: &str,
    reason: &str,
    most: usize,
)
    requires
        k < c.functions.len(),
        tuple@ == tuple_of(c.deep_view()),
        reason@ == reason_of(c.deep_view(), most),
        bounded(old(files).deep_view(), old(fns).deep_view().len()),
    ensures
        (Filing { files: final(files).deep_view(), fns: final(fns).deep_view() }) == with_member(
            Filing { files: old(files).deep_view(), fns: old(fns).deep_view() },
            c.deep_view(),
            k as int,
            most,
        ),
        bounded(final(files).deep_view(), final(fns).deep_view().len()),
{
    let m = &c.functions[k];
    assert(c.functions.deep_view()[k as int] == m.deep_view());
    let ghost fv = fns.deep_view();
    assert(fns.len() == fv.len());
    let new = !has_fn(fns, m.file.as_str(), m.name.as_str());
    let met = is_met(&c.functions, m.file.as_str(), k);
    let ghost was = files.deep_view();
    let ghost why = if met {
        None
    } else {
        Some(reason@)
    };
    if new {
        put(fns, (m.file.as_str().to_owned(), m.name.as_str().to_owned()));
        assert(fns.len() == fns.deep_view().len());
    }
    match find_file(files, m.file.as_str()) {
        Some(i) => {
            assert(was[i as int] == files@[i as int].deep_view());
            let f = &files[i].1;
            let mut clumps = copy_entries(&f.clumps);
            put(&mut clumps, (tuple.to_owned(), m.line));
            let mut reasons = crate::text::copy_list(&f.reasons);
            if !met {
                put(&mut reasons, reason.to_owned());
            }
            let members: usize = if new {
                f.members + 1
            } else {
                f.members
            };
            let x = (m.file.as_str().to_owned(), FileClumps { members, clumps, reasons });
            let ghost xv = x.deep_view();
            files.set(i, x);
            assert(files.deep_view() =~= was.update(i as int, xv));
            assert(xv.1 == filed(was[i as int].1, tuple@, m.line, new, why));
        },
        None => {
            let mut clumps: Vec<(String, usize)> = Vec::new();
            assert(clumps.deep_view() =~= Seq::<(Chars, usize)>::empty());
            put(&mut clumps, (tuple.to_owned(), m.line));
            let mut reasons: Vec<String> = Vec::new();
            assert(reasons.deep_view() =~= Seq::<Chars>::empty());
            if !met {
                put(&mut reasons, reason.to_owned());
            }
            let members: usize = if new {
                1
            } else {
                0
            };
            let x = (m.file.as_str().to_owned(), FileClumps { members, clumps, reasons });
            assert(x.1.deep_view() == filed(no_file(), tuple@, m.line, new, why));
            put(files, x);
        },
    }
}

fn copy_entries(s: &Vec<(String, usize)>) -> (out: Vec<(String, usize)>)
    ensures
        out.deep_view() == s.deep_view(),
{
    let ghost view = s.deep_view();
    let mut out: Vec<(String, usize)> = Vec::new();
    let mut i: usize = 0;
    while i < s.len()
        invariant
            i <= s.len(),
            i == out.len(),
            view == s.deep_view(),
            forall|j: int| 0 <= j < i ==> (#[trigger] out@[j]).deep_view() == view[j],
        decreases s.len() - i,
    {
        assert(view[i as int] == s@[i as int].deep_view());
        out.push((s[i].0.as_str().to_owned(), s[i].1));
        i = i + 1;
    }
    assert(out.deep_view() =~= view);
    out
}

fn sort_entries(s: &Vec<(String, usize)>) -> (out: Vec<(String, usize)>)
    ensures
        out.deep_view() == entries_sorted(s.deep_view()),
{
    let ghost view = s.deep_view();
    let ghost want = entry_keys(view);
    let mut keys: Vec<Key> = Vec::new();
    let mut i: usize = 0;
    while i < s.len()
        invariant
            i <= s.len(),
            i == keys.len(),
            view == s.deep_view(),
            want == entry_keys(view),
            forall|j: int| 0 <= j < i ==> (#[trigger] keys@[j]).deep_view() == want[j],
        decreases s.len() - i,
    {
        assert(view[i as int] == s@[i as int].deep_view());
        keys.push(Key { a: s[i].1, b: 0, s: s[i].0.as_str().to_owned(), c: 0 });
        i = i + 1;
    }
    assert(keys.deep_view() =~= want);
    let order = stable_order(&keys);
    let mut out: Vec<(String, usize)> = Vec::new();
    let mut i: usize = 0;
    while i < order.len()
        invariant
            i <= order.len(),
            i == out.len(),
            order.len() == s.len(),
            view == s.deep_view(),
            ints(order@) == ordered(want, s.len() as int),
            forall|k: int| 0 <= k < order.len() ==> #[trigger] order@[k] < s.len(),
            forall|j: int| 0 <= j < i ==> (#[trigger] out@[j]).deep_view() == view[ordered(want, s.len() as int)[j]],
        decreases order.len() - i,
    {
        let at: usize = order[i];
        assert(order@[i as int] < s.len());
        assert(ints(order@)[i as int] == at);
        assert(view[at as int] == s@[at as int].deep_view());
        out.push((s[at].0.as_str().to_owned(), s[at].1));
        i = i + 1;
    }
    assert(out.deep_view() =~= entries_sorted(view));
    out
}

fn cut_reasons(reasons: &Vec<String>, max: usize) -> (out: Vec<String>)
    ensures
        out.deep_view() == cut(reasons.deep_view(), max),
{
    let ghost view = reasons.deep_view();
    let total: usize = reasons.len();
    let n: usize = if total > max {
        max
    } else {
        total
    };
    let mut out: Vec<String> = Vec::new();
    let mut i: usize = 0;
    assert(out.deep_view() =~= view.take(0));
    while i < n
        invariant
            i <= n <= reasons.len(),
            view == reasons.deep_view(),
            out.deep_view() == view.take(i as int),
        decreases n - i,
    {
        put(&mut out, reasons[i].as_str().to_owned());
        assert(view.take(i + 1) =~= view.take(i as int).push(view[i as int]));
        i = i + 1;
    }
    if total > max {
        let mut s = "(+".to_owned();
        s.append(decimal(total - max).as_str());
        s.append(" more parameter clumps in clumps)");
        put(&mut out, s);
    } else {
        assert(view.take(view.len() as int) =~= view);
    }
    out
}

fn sort_files(s: &Vec<(String, FileClumps)>, cfg: &Clumps) -> (out: Vec<(String, FileClumps)>)
    ensures
        out.deep_view() == files_sorted(s.deep_view(), *cfg),
{
    let ghost view = s.deep_view();
    let ghost want = file_keys(view);
    let mut keys: Vec<Key> = Vec::new();
    let mut i: usize = 0;
    while i < s.len()
        invariant
            i <= s.len(),
            i == keys.len(),
            view == s.deep_view(),
            want == file_keys(view),
            forall|j: int| 0 <= j < i ==> (#[trigger] keys@[j]).deep_view() == want[j],
        decreases s.len() - i,
    {
        assert(view[i as int] == s@[i as int].deep_view());
        keys.push(Key { a: 0, b: 0, s: s[i].0.as_str().to_owned(), c: 0 });
        i = i + 1;
    }
    assert(keys.deep_view() =~= want);
    let order = stable_order(&keys);
    let ghost done = files_sorted(view, *cfg);
    let mut out: Vec<(String, FileClumps)> = Vec::new();
    let mut i: usize = 0;
    while i < order.len()
        invariant
            i <= order.len(),
            i == out.len(),
            order.len() == s.len(),
            view == s.deep_view(),
            want == file_keys(view),
            done == files_sorted(view, *cfg),
            ints(order@) == ordered(want, s.len() as int),
            forall|k: int| 0 <= k < order.len() ==> #[trigger] order@[k] < s.len(),
            forall|j: int| 0 <= j < i ==> (#[trigger] out@[j]).deep_view() == done[j],
        decreases order.len() - i,
    {
        let at: usize = order[i];
        assert(order@[i as int] < s.len());
        assert(ints(order@)[i as int] == at);
        assert(view[at as int] == s@[at as int].deep_view());
        let f = &s[at].1;
        let clumps = sort_entries(&f.clumps);
        let reasons = cut_reasons(&f.reasons, cfg.max_reported_per_file);
        out.push((s[at].0.as_str().to_owned(), FileClumps { members: f.members, clumps, reasons }));
        assert(out@[i as int].deep_view() == done[i as int]);
        i = i + 1;
    }
    assert(out.deep_view() =~= done);
    out
}

// ---------- totals ----------

/// A sum that stays in range.
pub open spec fn sum(a: usize, b: nat) -> usize {
    if a + b > usize::MAX {
        usize::MAX
    } else {
        (a + b) as usize
    }
}

/// No counts.
pub open spec fn no_totals() -> Totals {
    Totals {
        functions: 0,
        in_clumps: 0,
        clumps: 0,
        files: 0,
        silenced_functions: 0,
        skipped_trait_impls: 0,
        skipped_protocol: 0,
        skipped_other: 0,
        skipped_duplicates: 0,
    }
}

fn zero() -> (r: Totals)
    ensures
        r == no_totals(),
{
    Totals {
        functions: 0,
        in_clumps: 0,
        clumps: 0,
        files: 0,
        silenced_functions: 0,
        skipped_trait_impls: 0,
        skipped_protocol: 0,
        skipped_other: 0,
        skipped_duplicates: 0,
    }
}

/// A function has a parameter that the unused prefix marks.
pub open spec fn silenced(f: FnView, prefix: Chars) -> bool {
    prefix.len() > 0 && exists|i: int| 0 <= i < f.params.len() && crate::text::starts((#[trigger] f.params[i]).name, prefix)
}

/// How many of the first `n` functions have such a parameter.
pub open spec fn silenced_in(fns: Seq<FnView>, prefix: Chars, n: int) -> nat
    decreases n,
{
    if n <= 0 {
        0
    } else {
        silenced_in(fns, prefix, n - 1) + (if silenced(fns[n - 1], prefix) {
            1nat
        } else {
            0nat
        })
    }
}

/// The counts of the first `n` files.
pub open spec fn totals_of(sides: Seq<SideView>, cfg: Clumps, n: int) -> Totals
    decreases n,
{
    if n <= 0 {
        no_totals()
    } else {
        let t = totals_of(sides, cfg, n - 1);
        let s = sides[n - 1];
        Totals {
            functions: sum(t.functions, s.functions.len()),
            silenced_functions: sum(t.silenced_functions, silenced_in(s.functions, cfg.unused_prefix@, s.functions.len() as int)),
            skipped_trait_impls: sum(t.skipped_trait_impls, s.skipped_trait_impls),
            skipped_protocol: sum(t.skipped_protocol, s.skipped_protocol),
            skipped_other: sum(t.skipped_other, s.skipped_other),
            skipped_duplicates: sum(t.skipped_duplicates, s.skipped_duplicates),
            ..t
        }
    }
}

/// The functions that were left out.
pub open spec fn skipped(t: Totals) -> usize {
    sum(
        sum(sum(t.skipped_trait_impls, t.skipped_protocol as nat), t.skipped_other as nat),
        t.skipped_duplicates as nat,
    )
}

/// What the report notes.
pub open spec fn notes_of(t: Totals) -> Seq<Chars> {
    if skipped(t) == 0 {
        Seq::empty()
    } else {
        seq![
            digits(skipped(t) as nat) + " functions not analysed: "@ + digits(t.skipped_trait_impls as nat)
                + " trait / override methods and callbacks, "@ + digits(t.skipped_protocol as nat)
                + " protocol tuples, "@ + digits(t.skipped_other as nat) + " overloads / dunders / stubs, "@ + digits(
                t.skipped_duplicates as nat,
            ) + " same-name duplicates"@,
        ]
    }
}

fn is_silenced(f: &crate::clumps::side::FnSite, prefix: &str) -> (r: bool)
    ensures
        r == silenced(f.deep_view(), prefix@),
{
    if prefix.is_empty() {
        assert(prefix@.len() == 0);
        return false;
    }
    let ghost view = f.params.deep_view();
    let mut i: usize = 0;
    while i < f.params.len()
        invariant
            i <= f.params.len(),
            view == f.params.deep_view(),
            prefix@.len() > 0,
            forall|j: int| 0 <= j < i ==> !crate::text::starts((#[trigger] view[j]).name, prefix@),
        decreases f.params.len() - i,
    {
        assert(view[i as int] == f.params@[i as int].deep_view());
        if starts_with(f.params[i].name.as_str(), prefix) {
            assert(crate::text::starts(view[i as int].name, prefix@));
            assert(f.deep_view().params[i as int] == view[i as int]);
            return true;
        }
        i = i + 1;
    }
    false
}

fn count_totals(sides: &Vec<FileSide>, cfg: &Clumps) -> (t: Totals)
    ensures
        t == totals_of(sides.deep_view(), *cfg, sides.len() as int),
{
    let ghost view = sides.deep_view();
    let mut t = zero();
    let mut n: usize = 0;
    while n < sides.len()
        invariant
            n <= sides.len(),
            view == sides.deep_view(),
            t == totals_of(view, *cfg, n as int),
        decreases sides.len() - n,
    {
        let s = &sides[n];
        assert(view[n as int] == s.deep_view());
        let ghost fns = s.functions.deep_view();
        assert(fns.len() == s.functions.len());
        let mut silent: usize = 0;
        let mut k: usize = 0;
        while k < s.functions.len()
            invariant
                k <= s.functions.len(),
                fns == s.functions.deep_view(),
                silent <= k,
                silent == silenced_in(fns, cfg.unused_prefix@, k as int),
            decreases s.functions.len() - k,
        {
            assert(fns[k as int] == s.functions@[k as int].deep_view());
            if is_silenced(&s.functions[k], cfg.unused_prefix.as_str()) {
                silent = silent + 1;
            }
            k = k + 1;
        }
        t = Totals {
            functions: t.functions.saturating_add(s.functions.len()),
            silenced_functions: t.silenced_functions.saturating_add(silent),
            skipped_trait_impls: t.skipped_trait_impls.saturating_add(s.skipped_trait_impls),
            skipped_protocol: t.skipped_protocol.saturating_add(s.skipped_protocol),
            skipped_other: t.skipped_other.saturating_add(s.skipped_other),
            skipped_duplicates: t.skipped_duplicates.saturating_add(s.skipped_duplicates),
            ..t
        };
        n = n + 1;
    }
    t
}

fn make_notes(t: &Totals) -> (out: Vec<String>)
    ensures
        out.deep_view() == notes_of(*t),
{
    let all: usize = t.skipped_trait_impls.saturating_add(t.skipped_protocol).saturating_add(t.skipped_other).saturating_add(
        t.skipped_duplicates,
    );
    assert(all == skipped(*t));
    let mut out: Vec<String> = Vec::new();
    assert(out.deep_view() =~= Seq::<Chars>::empty());
    if all > 0 {
        let mut s = decimal(all);
        s.append(" functions not analysed: ");
        s.append(decimal(t.skipped_trait_impls).as_str());
        s.append(" trait / override methods and callbacks, ");
        s.append(decimal(t.skipped_protocol).as_str());
        s.append(" protocol tuples, ");
        s.append(decimal(t.skipped_other).as_str());
        s.append(" overloads / dunders / stubs, ");
        s.append(decimal(t.skipped_duplicates).as_str());
        s.append(" same-name duplicates");
        put(&mut out, s);
        assert(out.deep_view() =~= notes_of(*t));
    }
    out
}

// ---------- the report ----------

/// Names come before others, from `i` on.
pub open spec fn names_before(a: Seq<Chars>, b: Seq<Chars>, i: int) -> bool
    decreases a.len() - i,
{
    if i < 0 || i >= b.len() {
        false
    } else if i >= a.len() {
        true
    } else if a[i] != b[i] {
        before(a[i], b[i])
    } else {
        names_before(a, b, i + 1)
    }
}

/// How many of the first `n` clumps have parameters that come before some.
pub open spec fn tuple_rank(clumps: Seq<ClumpView>, params: Seq<Chars>, n: int) -> nat
    decreases n,
{
    if n <= 0 {
        0
    } else {
        tuple_rank(clumps, params, n - 1) + (if names_before(clumps[n - 1].params, params, 0) {
            1nat
        } else {
            0nat
        })
    }
}

/// The rows by which clumps are ordered: members descending, files descending, then the tuple.
pub open spec fn clump_rows(clumps: Seq<ClumpView>) -> Seq<Row> {
    Seq::new(
        clumps.len(),
        |i: int|
            (
                -(clumps[i].functions.len() as i128) as i128,
                -(clumps[i].files as i128) as i128,
                tuple_rank(clumps, clumps[i].params, clumps.len() as int) as i128,
                i as i128,
                0,
                0,
            ),
    )
}

/// The clumps of member sets.
pub open spec fn clump_list(sides: Seq<SideView>, m: Seq<MergedView>, cfg: Clumps) -> Seq<ClumpView> {
    Seq::new(m.len(), |i: int| clump_of(sides, m[i], cfg))
}

/// Clumps in the order of their rows.
pub open spec fn clumps_sorted(clumps: Seq<ClumpView>) -> Seq<ClumpView> {
    let rows = sorted_rows(clump_rows(clumps));
    Seq::new(rows.len(), |i: int| clumps[rows[i].3 as int])
}

/// The clumps of the functions of files.
pub open spec fn clumps_of(sides: Seq<SideView>, cfg: Clumps) -> Seq<ClumpView> {
    let g = all_groups(sides, cfg);
    clumps_sorted(clump_list(sides, merged_of(sides, g, cfg, g.len() as int), cfg))
}

/// The report on the functions of files.
pub open spec fn report_of(sides: Seq<SideView>, cfg: Clumps) -> ReportView {
    let clumps = clumps_of(sides, cfg);
    let filing = filing_of(clumps, cfg.max_sites_listed, clumps.len() as int);
    let t = totals_of(sides, cfg, sides.len() as int);
    ReportView {
        totals: Totals {
            clumps: clumps.len() as usize,
            in_clumps: filing.fns.len() as usize,
            files: filing.files.len() as usize,
            ..t
        },
        notes: notes_of(t),
        clumps,
        files: files_sorted(filing.files, cfg),
    }
}

fn names_less(a: &Vec<String>, b: &Vec<String>) -> (r: bool)
    ensures
        r == names_before(a.deep_view(), b.deep_view(), 0),
{
    let ghost va = a.deep_view();
    let ghost vb = b.deep_view();
    let mut i: usize = 0;
    while i < a.len() && i < b.len()
        invariant
            i <= a.len(),
            i <= b.len(),
            va == a.deep_view(),
            vb == b.deep_view(),
            names_before(va, vb, 0) == names_before(va, vb, i as int),
        decreases a.len() - i,
    {
        assert(va[i as int] == a@[i as int]@);
        assert(vb[i as int] == b@[i as int]@);
        if !same(a[i].as_str(), b[i].as_str()) {
            return less(a[i].as_str(), b[i].as_str());
        }
        i = i + 1;
    }
    i < b.len()
}

fn order_of(clumps: &Vec<Clump>) -> (out: Vec<usize>)
    ensures
        out.len() == clumps.len(),
        out.len() == sorted_rows(clump_rows(clumps.deep_view())).len(),
        forall|i: int|
            0 <= i < out.len() ==> #[trigger] out@[i] < clumps.len() && out@[i] == sorted_rows(
                clump_rows(clumps.deep_view()),
            )[i].3,
{
    let ghost view = clumps.deep_view();
    let ghost want = clump_rows(view);
    let mut rows: Vec<Row> = Vec::new();
    let mut i: usize = 0;
    while i < clumps.len()
        invariant
            i <= clumps.len(),
            i == rows.len(),
            view == clumps.deep_view(),
            want == clump_rows(view),
            forall|j: int| 0 <= j < i ==> #[trigger] rows@[j] == want[j],
        decreases clumps.len() - i,
    {
        let c = &clumps[i];
        assert(view[i as int] == c.deep_view());
        assert(c.functions.len() == c.deep_view().functions.len());
        let mut rank: usize = 0;
        let mut n: usize = 0;
        while n < clumps.len()
            invariant
                n <= clumps.len(),
                view == clumps.deep_view(),
                view[i as int] == c.deep_view(),
                rank <= n,
                rank == tuple_rank(view, view[i as int].params, n as int),
            decreases clumps.len() - n,
        {
            assert(view[n as int] == clumps@[n as int].deep_view());
            if names_less(&clumps[n].params, &c.params) {
                rank = rank + 1;
            }
            n = n + 1;
        }
        rows.push((-(c.functions.len() as i128), -(c.files as i128), rank as i128, i as i128, 0, 0));
        i = i + 1;
    }
    assert(rows@ =~= want);
    let sorted = sort_rows(&rows);
    proof {
        sorted_rows_are_sorted(want);
        assert forall|j: int| 0 <= j < sorted.len() implies 0 <= (#[trigger] sorted@[j]).3 < clumps.len() by {
            sorted_rows_hold(want, sorted@[j]);
            assert(sorted@.contains(sorted@[j]));
            let m = choose|m: int| 0 <= m < want.len() && want[m] == sorted@[j];
            assert(want[m].3 == m);
        }
    }
    let mut out: Vec<usize> = Vec::new();
    let mut i: usize = 0;
    while i < sorted.len()
        invariant
            i <= sorted.len(),
            i == out.len(),
            sorted@ == sorted_rows(clump_rows(clumps.deep_view())),
            forall|j: int| 0 <= j < sorted.len() ==> 0 <= (#[trigger] sorted@[j]).3 < clumps.len(),
            forall|j: int| 0 <= j < i ==> #[trigger] out@[j] < clumps.len() && out@[j] == sorted@[j].3,
        decreases sorted.len() - i,
    {
        assert(0 <= sorted@[i as int].3 < clumps.len());
        out.push(sorted[i].3 as usize);
        i = i + 1;
    }
    out
}

/// The clumps of the functions of files, in order.
pub fn find_clumps(sides: &Vec<FileSide>, cfg: &Clumps) -> (out: Vec<Clump>)
    ensures
        out.deep_view() == clumps_of(sides.deep_view(), *cfg),
{
    let ghost view = sides.deep_view();
    let g = group_all(sides, cfg);
    let list = g.list();
    assert(list.len() == g@.len());
    let m = merge(sides, list, cfg);
    let ghost mv = m.deep_view();
    let ghost want = clump_list(view, mv, *cfg);
    let mut clumps: Vec<Clump> = Vec::new();
    let mut i: usize = 0;
    while i < m.len()
        invariant
            i <= m.len(),
            i == clumps.len(),
            view == sides.deep_view(),
            mv == m.deep_view(),
            all_merged_ok(view, mv),
            want == clump_list(view, mv, *cfg),
            forall|j: int| 0 <= j < i ==> (#[trigger] clumps@[j]).deep_view() == want[j],
        decreases m.len() - i,
    {
        assert(mv[i as int] == m@[i as int].deep_view());
        clumps.push(make_clump(sides, &m[i], cfg));
        i = i + 1;
    }
    assert(clumps.deep_view() =~= want);
    let order = order_of(&clumps);
    let ghost done = clumps_sorted(want);
    let mut out: Vec<Clump> = Vec::new();
    let mut i: usize = 0;
    while i < order.len()
        invariant
            i <= order.len(),
            i == out.len(),
            view == sides.deep_view(),
            mv == m.deep_view(),
            all_merged_ok(view, mv),
            want == clump_list(view, mv, *cfg),
            done == clumps_sorted(want),
            order.len() == m.len(),
            order.len() == done.len(),
            forall|k: int| 0 <= k < order.len() ==> #[trigger] order@[k] < m.len() && done[k] == want[order@[k] as int],
            forall|j: int| 0 <= j < i ==> (#[trigger] out@[j]).deep_view() == done[j],
        decreases order.len() - i,
    {
        let at: usize = order[i];
        assert(order@[i as int] < m.len());
        assert(mv[at as int] == m@[at as int].deep_view());
        out.push(make_clump(sides, &m[at], cfg));
        i = i + 1;
    }
    assert(out.deep_view() =~= done);
    out
}

/// The report on the functions of files.
pub fn analyze(sides: &Vec<FileSide>, cfg: &Clumps) -> (r: ClumpsReport)
    ensures
        r.deep_view() == report_of(sides.deep_view(), *cfg),
{
    let clumps = find_clumps(sides, cfg);
    let ghost cv = clumps.deep_view();
    let most: usize = cfg.max_sites_listed;
    let mut files: Vec<(String, FileClumps)> = Vec::new();
    let mut fns: Vec<(String, String)> = Vec::new();
    let mut n: usize = 0;
    assert(files.deep_view() =~= Seq::<(Chars, FileView)>::empty());
    assert(fns.deep_view() =~= Seq::<(Chars, Chars)>::empty());
    while n < clumps.len()
        invariant
            n <= clumps.len(),
            cv == clumps.deep_view(),
            most == cfg.max_sites_listed,
            bounded(files.deep_view(), fns.deep_view().len()),
            (Filing { files: files.deep_view(), fns: fns.deep_view() }) == filing_of(cv, most, n as int),
        decreases clumps.len() - n,
    {
        let c = &clumps[n];
        assert(cv[n as int] == c.deep_view());
        let tuple = make_tuple(c);
        let reason = make_reason(c, most);
        let ghost one = c.deep_view();
        let ghost whole = with_members(Filing { files: files.deep_view(), fns: fns.deep_view() }, one, 0, most);
        let mut k: usize = 0;
        assert(one.functions.len() == c.functions.len());
        while k < c.functions.len()
            invariant
                k <= c.functions.len(),
                one == c.deep_view(),
                one.functions.len() == c.functions.len(),
                tuple@ == tuple_of(one),
                reason@ == reason_of(one, most),
                bounded(files.deep_view(), fns.deep_view().len()),
                whole == with_members(Filing { files: files.deep_view(), fns: fns.deep_view() }, one, k as int, most),
            decreases c.functions.len() - k,
        {
            file_member(&mut files, &mut fns, c, k, tuple.as_str(), reason.as_str(), most);
            k = k + 1;
        }
        n = n + 1;
    }
    let t = count_totals(sides, cfg);
    let notes = make_notes(&t);
    assert(fns.len() == fns.deep_view().len());
    assert(files.len() == files.deep_view().len());
    let totals = Totals { clumps: clumps.len(), in_clumps: fns.len(), files: files.len(), ..t };
    ClumpsReport { totals, notes, clumps, files: sort_files(&files, cfg) }
}

} // verus!
