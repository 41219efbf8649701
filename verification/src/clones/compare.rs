//! Two functions side by side: the lines they share and those they do not.

use vstd::prelude::*;

use crate::clones::detect::{Loc, LocView};
use crate::sorting::{sort_rows, sorted_rows, sorted_rows_are_sorted, sorted_rows_hold, Row};
use crate::text::{join, joined, lines, lines_of, put, same, trim, trimmed, Chars};

verus! {

/// A few lines of a file.
pub struct Excerpt {
    pub location: Loc,
    pub code: String,
    /// There was more.
    pub truncated: bool,
}

/// An [`Excerpt`] by its contents.
pub struct ExcerptView {
    pub location: LocView,
    pub code: Chars,
    pub truncated: bool,
}

impl DeepView for Excerpt {
    type V = ExcerptView;

    open spec fn deep_view(&self) -> ExcerptView {
        ExcerptView { location: self.location.deep_view(), code: self.code@, truncated: self.truncated }
    }
}

/// A block of lines on both sides.
pub struct Change {
    pub a: Option<Excerpt>,
    pub b: Option<Excerpt>,
}

/// A [`Change`] by its contents.
pub struct ChangeView {
    pub a: Option<ExcerptView>,
    pub b: Option<ExcerptView>,
}

impl DeepView for Change {
    type V = ChangeView;

    open spec fn deep_view(&self) -> ChangeView {
        ChangeView { a: self.a.deep_view(), b: self.b.deep_view() }
    }
}

/// Two functions side by side.
pub struct Comparison {
    pub a: Loc,
    pub b: Loc,
    /// Lines equal but for the blanks round them; other names and literals are differences.
    pub shared: Vec<Change>,
    pub differences: Vec<Change>,
    pub shared_blocks_omitted: usize,
    pub differences_omitted: usize,
    /// Nothing was compared: one of them is too long.
    pub skipped: bool,
}

/// A [`Comparison`] by its contents.
pub struct ComparisonView {
    pub a: LocView,
    pub b: LocView,
    pub shared: Seq<ChangeView>,
    pub differences: Seq<ChangeView>,
    pub shared_blocks_omitted: nat,
    pub differences_omitted: nat,
    pub skipped: bool,
}

impl DeepView for Comparison {
    type V = ComparisonView;

    open spec fn deep_view(&self) -> ComparisonView {
        ComparisonView {
            a: self.a.deep_view(),
            b: self.b.deep_view(),
            shared: self.shared.deep_view(),
            differences: self.differences.deep_view(),
            shared_blocks_omitted: self.shared_blocks_omitted as nat,
            differences_omitted: self.differences_omitted as nat,
            skipped: self.skipped,
        }
    }
}

/// Functions of more lines than this are not compared.
pub const MAX_LINES: usize = 500;

/// An excerpt goes on for at most this many lines after its first.
pub const MORE_LINES: usize = 11;

/// The most shared blocks of a comparison.
pub const MAX_SHARED: usize = 3;

/// The most differences of a comparison.
pub const MAX_DIFFERENCES: usize = 8;

/// A line: its number and its text without the blanks round it.
pub type Line = (usize, Chars);

/// The first `n` lines of a file that lie in a stretch and are not blank.
pub open spec fn code_lines(all: Seq<Chars>, l: LocView, n: int) -> Seq<Line>
    decreases n,
{
    if n <= 0 {
        Seq::empty()
    } else {
        let was = code_lines(all, l, n - 1);
        let text = trimmed(all[n - 1]);
        if l.start_line <= n <= l.end_line && text.len() > 0 {
            was.push((n as usize, text))
        } else {
            was
        }
    }
}

/// The lines of a stretch that are not blank.
pub open spec fn code_of(all: Seq<Chars>, l: LocView) -> Seq<Line> {
    code_lines(all, l, all.len() as int)
}

/// Two lines are equal.
pub open spec fn equal_at(x: Seq<Line>, y: Seq<Line>, i: int, j: int) -> bool {
    0 <= i < x.len() && 0 <= j < y.len() && x[i].1 == y[j].1
}

/// The length of the longest common subsequence of the lines from `i` and from `j` on.
pub open spec fn lcs(x: Seq<Line>, y: Seq<Line>, i: int, j: int) -> nat
    decreases x.len() - i, y.len() - j,
{
    if i < 0 || j < 0 || i >= x.len() || j >= y.len() {
        0
    } else if x[i].1 == y[j].1 {
        1 + lcs(x, y, i + 1, j + 1)
    } else {
        let a = lcs(x, y, i + 1, j);
        let b = lcs(x, y, i, j + 1);
        if a >= b {
            a
        } else {
            b
        }
    }
}

/// One step along two functions: past equal lines on both sides, else past the side on which more
/// stays common.
pub open spec fn step(x: Seq<Line>, y: Seq<Line>, i: int, j: int) -> (int, int) {
    if equal_at(x, y, i, j) {
        (i + 1, j + 1)
    } else if j >= y.len() || (i < x.len() && lcs(x, y, i + 1, j) >= lcs(x, y, i, j + 1)) {
        (i + 1, j)
    } else {
        (i, j + 1)
    }
}

/// Where the block that `i` and `j` stand in ends.
pub open spec fn block_end(x: Seq<Line>, y: Seq<Line>, i: int, j: int, shared: bool) -> (int, int)
    decreases x.len() - i + y.len() - j,
{
    if i < 0 || j < 0 || i > x.len() || j > y.len() || (i >= x.len() && j >= y.len()) || equal_at(x, y, i, j) != shared {
        (i, j)
    } else {
        let (a, b) = step(x, y, i, j);
        block_end(x, y, a, b, shared)
    }
}

/// A block: where it starts and ends on both sides.
#[derive(Clone, Copy)]
pub struct Block {
    pub shared: bool,
    pub a: usize,
    pub a_end: usize,
    pub b: usize,
    pub b_end: usize,
}

/// The blocks from `i` and `j` on.
pub open spec fn blocks_from(x: Seq<Line>, y: Seq<Line>, i: int, j: int) -> Seq<Block>
    decreases x.len() - i + y.len() - j,
{
    if i < 0 || j < 0 || i > x.len() || j > y.len() || (i >= x.len() && j >= y.len()) {
        Seq::empty()
    } else {
        let shared = equal_at(x, y, i, j);
        let (a, b) = block_end(x, y, i, j, shared);
        seq![
            Block { shared, a: i as usize, a_end: a as usize, b: j as usize, b_end: b as usize },
        ] + (if i <= a <= x.len() && j <= b <= y.len() && a + b > i + j {
            blocks_from(x, y, a, b)
        } else {
            Seq::empty()
        })
    }
}

/// An excerpt of the lines from `from` to `to` of a stretch.
pub open spec fn excerpt_of(l: LocView, s: Seq<Line>, from: int, to: int, all: Seq<Chars>) -> Option<ExcerptView> {
    if from >= to {
        None
    } else {
        let first = s[from].0;
        let last = s[to - 1].0;
        let end = if last as int <= first + MORE_LINES {
            last
        } else {
            (first + MORE_LINES) as usize
        };
        Some(
            ExcerptView {
                location: LocView { start_line: first, end_line: end, ..l },
                code: joined(all.subrange(first - 1, end as int), "\n"@),
                truncated: last > end,
            },
        )
    }
}

/// The change of a block.
pub open spec fn change_of(
    b: Block,
    la: LocView,
    lb: LocView,
    x: Seq<Line>,
    y: Seq<Line>,
    fa: Seq<Chars>,
    fb: Seq<Chars>,
) -> ChangeView {
    ChangeView {
        a: excerpt_of(la, x, b.a as int, b.a_end as int, fa),
        b: excerpt_of(lb, y, b.b as int, b.b_end as int, fb),
    }
}

/// The changes of the first `n` blocks that are shared, or are not.
pub open spec fn changes_of(
    blocks: Seq<Block>,
    shared: bool,
    la: LocView,
    lb: LocView,
    x: Seq<Line>,
    y: Seq<Line>,
    fa: Seq<Chars>,
    fb: Seq<Chars>,
    n: int,
) -> Seq<ChangeView>
    decreases n,
{
    if n <= 0 {
        Seq::empty()
    } else {
        let was = changes_of(blocks, shared, la, lb, x, y, fa, fb, n - 1);
        if blocks[n - 1].shared == shared {
            was.push(change_of(blocks[n - 1], la, lb, x, y, fa, fb))
        } else {
            was
        }
    }
}

/// How far a change's first side goes.
pub open spec fn reach_of(c: ChangeView) -> int {
    match c.a {
        Some(e) => if e.location.end_line >= e.location.start_line {
            e.location.end_line - e.location.start_line
        } else {
            0
        },
        None => 0,
    }
}

/// The rows by which shared blocks are ordered: the longest first.
pub open spec fn reach_rows(s: Seq<ChangeView>) -> Seq<Row> {
    Seq::new(s.len(), |i: int| (-reach_of(s[i]) as i128, i as i128, 0, 0, 0, 0))
}

/// At most so many.
pub open spec fn at_most(n: nat, max: usize) -> nat {
    if n < max {
        n
    } else {
        max as nat
    }
}

/// The longest shared blocks.
pub open spec fn longest_of(s: Seq<ChangeView>) -> Seq<ChangeView> {
    let rows = sorted_rows(reach_rows(s));
    Seq::new(at_most(s.len(), MAX_SHARED), |i: int| s[rows[i].1 as int])
}

/// How many are left out.
pub open spec fn omitted(n: nat, max: usize) -> nat {
    (n - at_most(n, max)) as nat
}

/// A stretch is too long to compare.
pub open spec fn too_long(l: LocView) -> bool {
    l.end_line - l.start_line >= MAX_LINES
}

/// Two stretches side by side, with the lines of their files.
pub open spec fn compared(la: LocView, lb: LocView, fa: Seq<Chars>, fb: Seq<Chars>) -> ComparisonView {
    if too_long(la) || too_long(lb) {
        ComparisonView {
            a: la,
            b: lb,
            shared: Seq::empty(),
            differences: Seq::empty(),
            shared_blocks_omitted: 0,
            differences_omitted: 0,
            skipped: true,
        }
    } else {
        let x = code_of(fa, la);
        let y = code_of(fb, lb);
        let blocks = blocks_from(x, y, 0, 0);
        let n = blocks.len() as int;
        let shared = changes_of(blocks, true, la, lb, x, y, fa, fb, n);
        let different = changes_of(blocks, false, la, lb, x, y, fa, fb, n);
        ComparisonView {
            a: la,
            b: lb,
            shared: longest_of(shared),
            differences: different.take(at_most(different.len(), MAX_DIFFERENCES) as int),
            shared_blocks_omitted: omitted(shared.len(), MAX_SHARED),
            differences_omitted: omitted(different.len(), MAX_DIFFERENCES),
            skipped: false,
        }
    }
}

/// A copy of a stretch.
pub fn copy_loc(l: &Loc) -> (r: Loc)
    ensures
        r.deep_view() == l.deep_view(),
{
    Loc {
        file: l.file.as_str().to_owned(),
        start_line: l.start_line,
        end_line: l.end_line,
        symbol: match &l.symbol {
            Some(s) => Some(s.as_str().to_owned()),
            None => None,
        },
    }
}

/// Lines in ascending order within a file.
pub open spec fn within(s: Seq<Line>, n: nat) -> bool {
    forall|i: int| 0 <= i < s.len() ==> 1 <= (#[trigger] s[i]).0 <= n
}

/// Lines in ascending order.
pub open spec fn rising(s: Seq<Line>) -> bool {
    forall|i: int, j: int| 0 <= i <= j < s.len() ==> (#[trigger] s[i]).0 <= (#[trigger] s[j]).0
}

fn find_code(all: &Vec<String>, l: &Loc) -> (out: Vec<(usize, String)>)
    ensures
        out.deep_view() == code_of(all.deep_view(), l.deep_view()),
        within(out.deep_view(), all.len() as nat),
        rising(out.deep_view()),
{
    let ghost view = all.deep_view();
    let mut out: Vec<(usize, String)> = Vec::new();
    let mut n: usize = 0;
    assert(out.deep_view() =~= Seq::<Line>::empty());
    while n < all.len()
        invariant
            n <= all.len(),
            view == all.deep_view(),
            out.deep_view() == code_lines(view, l.deep_view(), n as int),
            within(out.deep_view(), n as nat),
            rising(out.deep_view()),
        decreases all.len() - n,
    {
        assert(view[n as int] == all@[n as int]@);
        let text = trim(all[n].as_str());
        n = n + 1;
        let blank = text.as_str().is_empty();
        assert(blank == (text@.len() == 0));
        if l.start_line <= n && n <= l.end_line && !blank {
            let ghost was = out.deep_view();
            put(&mut out, (n, text));
            assert forall|i: int, j: int| 0 <= i <= j < out.deep_view().len() implies (#[trigger] out.deep_view()[i]).0 <= (
            #[trigger] out.deep_view()[j]).0 by {
                if j < was.len() {
                    assert(was[i].0 <= was[j].0);
                } else if i < was.len() {
                    assert(was[i].0 <= n);
                }
            }
        }
    }
    out
}

/// A row of the table of common subsequences, the last line first.
spec fn row_ok(row: Seq<usize>, x: Seq<Line>, y: Seq<Line>, i: int, m: int) -> bool {
    forall|k: int| 0 <= k < row.len() ==> #[trigger] row[k] == lcs(x, y, i, m - k)
}

proof fn lcs_is_short(x: Seq<Line>, y: Seq<Line>, i: int, j: int)
    requires
        0 <= i <= x.len(),
        0 <= j <= y.len(),
    ensures
        lcs(x, y, i, j) <= x.len() - i,
    decreases x.len() - i, y.len() - j,
{
    if i < x.len() && j < y.len() {
        if x[i].1 == y[j].1 {
            lcs_is_short(x, y, i + 1, j + 1);
        } else {
            lcs_is_short(x, y, i + 1, j);
            lcs_is_short(x, y, i, j + 1);
        }
    }
}

fn lines_equal(x: &Vec<(usize, String)>, y: &Vec<(usize, String)>, i: usize, j: usize) -> (r: bool)
    ensures
        r == equal_at(x.deep_view(), y.deep_view(), i as int, j as int),
{
    if i < x.len() && j < y.len() {
        assert(x.deep_view()[i as int] == x@[i as int].deep_view());
        assert(y.deep_view()[j as int] == y@[j as int].deep_view());
        same(x[i].1.as_str(), y[j].1.as_str())
    } else {
        false
    }
}

/// The table of common subsequences: the row of line `i` stands `i` from the end, and in it column
/// `j` stands `j` from the end.
fn lcs_table(x: &Vec<(usize, String)>, y: &Vec<(usize, String)>) -> (table: Vec<Vec<usize>>)
    ensures
        table.len() == x.len() + 1,
        forall|k: int|
            0 <= k < table.len() ==> (#[trigger] table@[k]).len() == y.len() + 1 && row_ok(
                table@[k]@,
                x.deep_view(),
                y.deep_view(),
                x.len() - k,
                y.len() as int,
            ),
{
    let ghost xv = x.deep_view();
    let ghost yv = y.deep_view();
    let n: usize = x.len();
    let m: usize = y.len();
    assert(xv.len() == n && yv.len() == m);
    let mut table: Vec<Vec<usize>> = Vec::new();
    let mut last: Vec<usize> = Vec::new();
    let mut k: usize = 0;
    while k < m
        invariant
            k <= m,
            k == last.len(),
            m == yv.len(),
            n == xv.len(),
            row_ok(last@, xv, yv, n as int, m as int),
        decreases m - k,
    {
        last.push(0);
        k = k + 1;
    }
    last.push(0);
    table.push(last);
    let mut i: usize = n;
    while i > 0
        invariant
            i <= n,
            n == x.len(),
            m == y.len(),
            xv == x.deep_view(),
            yv == y.deep_view(),
            n == xv.len(),
            m == yv.len(),
            table.len() == n - i + 1,
            forall|k: int|
                0 <= k < table.len() ==> (#[trigger] table@[k]).len() == m + 1 && row_ok(table@[k]@, xv, yv, n - k, m as int),
        decreases i,
    {
        let at: usize = i - 1;
        let below = &table[n - i];
        assert(below.len() == m + 1);
        assert(row_ok(below@, xv, yv, i as int, m as int));
        let mut row: Vec<usize> = Vec::new();
        row.push(0);
        let mut j: usize = m;
        while j > 0
            invariant
                j <= m,
                at < n,
                at + 1 == i,
                n == x.len(),
                m == y.len(),
                xv == x.deep_view(),
                yv == y.deep_view(),
                n == xv.len(),
                m == yv.len(),
                below.len() == m + 1,
                row_ok(below@, xv, yv, i as int, m as int),
                row.len() == m - j + 1,
                row_ok(row@, xv, yv, at as int, m as int),
            decreases j,
        {
            let c: usize = j - 1;
            let v: usize = if lines_equal(x, y, at, c) {
                proof {
                    lcs_is_short(xv, yv, i as int, j as int);
                    assert(below@[m - j] == lcs(xv, yv, i as int, m - (m - j)));
                }
                1 + below[m - j]
            } else {
                let a: usize = below[m - c];
                let b: usize = row[m - j];
                assert(below@[m - c] == lcs(xv, yv, i as int, m - (m - c)));
                assert(row@[m - j] == lcs(xv, yv, at as int, m - (m - j)));
                if a >= b {
                    a
                } else {
                    b
                }
            };
            assert(v == lcs(xv, yv, at as int, c as int));
            row.push(v);
            j = c;
        }
        table.push(row);
        i = at;
    }
    table
}

#[verifier::rlimit(40)]
fn find_blocks(x: &Vec<(usize, String)>, y: &Vec<(usize, String)>) -> (out: Vec<Block>)
    ensures
        out@ == blocks_from(x.deep_view(), y.deep_view(), 0, 0),
        forall|k: int|
            0 <= k < out.len() ==> (#[trigger] out@[k]).a <= out@[k].a_end <= x.len() && out@[k].b <= out@[k].b_end <= y.len(),
{
    let ghost xv = x.deep_view();
    let ghost yv = y.deep_view();
    let n: usize = x.len();
    let m: usize = y.len();
    assert(xv.len() == n && yv.len() == m);
    let table = lcs_table(x, y);
    let ghost whole = blocks_from(xv, yv, 0, 0);
    let mut out: Vec<Block> = Vec::new();
    let mut i: usize = 0;
    let mut j: usize = 0;
    assert(out@ + whole =~= whole);
    while i < n || j < m
        invariant
            i <= n,
            j <= m,
            n == x.len(),
            m == y.len(),
            xv == x.deep_view(),
            yv == y.deep_view(),
            n == xv.len(),
            m == yv.len(),
            table.len() == n + 1,
            forall|k: int|
                0 <= k < table.len() ==> (#[trigger] table@[k]).len() == m + 1 && row_ok(table@[k]@, xv, yv, n - k, m as int),
            whole == out@ + blocks_from(xv, yv, i as int, j as int),
            forall|k: int|
                0 <= k < out.len() ==> (#[trigger] out@[k]).a <= out@[k].a_end <= n && out@[k].b <= out@[k].b_end <= m,
        decreases n - i + m - j,
    {
        let si: usize = i;
        let sj: usize = j;
        let shared = lines_equal(x, y, i, j);
        let ghost end = block_end(xv, yv, si as int, sj as int, shared);
        let mut go = true;
        while go && (i < n || j < m)
            invariant
                si <= i <= n,
                sj <= j <= m,
                n == x.len(),
                m == y.len(),
                xv == x.deep_view(),
                yv == y.deep_view(),
                n == xv.len(),
                m == yv.len(),
                    table.len() == n + 1,
                forall|k: int|
                    0 <= k < table.len() ==> (#[trigger] table@[k]).len() == m + 1 && row_ok(
                        table@[k]@,
                        xv,
                        yv,
                        n - k,
                        m as int,
                    ),
                shared == equal_at(xv, yv, si as int, sj as int),
                si < n || sj < m,
                end == block_end(xv, yv, i as int, j as int, shared),
                !go ==> end == (i as int, j as int),
                i + j > si + sj || (i == si && j == sj && go),
            decreases n - i + m - j, go as int,
        {
            let equal = lines_equal(x, y, i, j);
            if equal != shared {
                go = false;
            } else if equal {
                i = i + 1;
                j = j + 1;
            } else if j == m {
                i = i + 1;
            } else if i < n {
                let below = &table[n - i - 1];
                let here = &table[n - i];
                assert(row_ok(table@[n - i - 1]@, xv, yv, n - (n - i - 1), m as int));
                assert(row_ok(table@[n - i]@, xv, yv, n - (n - i), m as int));
                let a: usize = below[m - j];
                let b: usize = here[m - j - 1];
                assert(below@[m - j] == lcs(xv, yv, i + 1, m - (m - j)));
                assert(here@[m - j - 1] == lcs(xv, yv, i as int, m - (m - j - 1)));
                if a >= b {
                    i = i + 1;
                } else {
                    j = j + 1;
                }
            } else {
                j = j + 1;
            }
        }
        let ghost was = out@;
        let block = Block { shared, a: si, a_end: i, b: sj, b_end: j };
        out.push(block);
        proof {
            assert(end == (i as int, j as int));
            let rest = blocks_from(xv, yv, i as int, j as int);
            assert(was + (seq![block] + rest) =~= out@ + rest);
        }
    }
    assert(out@ + Seq::<Block>::empty() =~= out@);
    out
}

fn excerpt(l: &Loc, s: &Vec<(usize, String)>, from: usize, to: usize, all: &Vec<String>) -> (r: Option<Excerpt>)
    requires
        from <= to <= s.len(),
        within(s.deep_view(), all.len() as nat),
        rising(s.deep_view()),
    ensures
        r.deep_view() == excerpt_of(l.deep_view(), s.deep_view(), from as int, to as int, all.deep_view()),
{
    if from >= to {
        return None;
    }
    let ghost sv = s.deep_view();
    let ghost av = all.deep_view();
    assert(sv[from as int] == s@[from as int].deep_view());
    assert(sv[to - 1] == s@[to - 1].deep_view());
    assert(sv[from as int].0 <= sv[to - 1].0);
    let first: usize = s[from].0;
    let last: usize = s[to - 1].0;
    let end: usize = if last - first <= MORE_LINES {
        last
    } else {
        first + MORE_LINES
    };
    let mut code: Vec<String> = Vec::new();
    let mut k: usize = first - 1;
    assert(code.deep_view() =~= av.subrange(first - 1, first - 1));
    while k < end
        invariant
            first >= 1,
            first - 1 <= k <= end <= all.len(),
            av == all.deep_view(),
            code.deep_view() == av.subrange(first - 1, k as int),
        decreases end - k,
    {
        assert(av[k as int] == all@[k as int]@);
        put(&mut code, all[k].as_str().to_owned());
        assert(av.subrange(first - 1, k + 1) =~= av.subrange(first - 1, k as int).push(av[k as int]));
        k = k + 1;
    }
    Some(
        Excerpt {
            location: Loc { start_line: first, end_line: end, ..copy_loc(l) },
            code: join(&code, "\n"),
            truncated: last > end,
        },
    )
}

fn copy_excerpt(e: &Option<Excerpt>) -> (r: Option<Excerpt>)
    ensures
        r.deep_view() == e.deep_view(),
{
    match e {
        Some(x) => Some(
            Excerpt { location: copy_loc(&x.location), code: x.code.as_str().to_owned(), truncated: x.truncated },
        ),
        None => None,
    }
}

fn reach(c: &Change) -> (r: usize)
    ensures
        r == reach_of(c.deep_view()),
{
    match &c.a {
        Some(e) => if e.location.end_line >= e.location.start_line {
            e.location.end_line - e.location.start_line
        } else {
            0
        },
        None => 0,
    }
}

fn longest(s: &Vec<Change>) -> (out: Vec<Change>)
    ensures
        out.deep_view() == longest_of(s.deep_view()),
{
    let ghost view = s.deep_view();
    let ghost want = reach_rows(view);
    let mut rows: Vec<Row> = Vec::new();
    let mut i: usize = 0;
    while i < s.len()
        invariant
            i <= s.len(),
            i == rows.len(),
            view == s.deep_view(),
            want == reach_rows(view),
            forall|j: int| 0 <= j < i ==> #[trigger] rows@[j] == want[j],
        decreases s.len() - i,
    {
        assert(view[i as int] == s@[i as int].deep_view());
        rows.push((-(reach(&s[i]) as i128), i as i128, 0, 0, 0, 0));
        i = i + 1;
    }
    assert(rows@ =~= want);
    let sorted = sort_rows(&rows);
    proof {
        sorted_rows_are_sorted(want);
        assert forall|j: int| 0 <= j < sorted.len() implies 0 <= (#[trigger] sorted@[j]).1 < s.len() by {
            sorted_rows_hold(want, sorted@[j]);
            assert(sorted@.contains(sorted@[j]));
            let m = choose|m: int| 0 <= m < want.len() && want[m] == sorted@[j];
            assert(want[m].1 == m);
        }
    }
    let n: usize = if s.len() < MAX_SHARED {
        s.len()
    } else {
        MAX_SHARED
    };
    let mut out: Vec<Change> = Vec::new();
    let mut i: usize = 0;
    while i < n
        invariant
            i <= n <= s.len(),
            i == out.len(),
            sorted.len() == s.len(),
            view == s.deep_view(),
            forall|j: int| 0 <= j < sorted.len() ==> 0 <= (#[trigger] sorted@[j]).1 < s.len(),
            forall|j: int| 0 <= j < i ==> (#[trigger] out@[j]).deep_view() == view[sorted@[j].1 as int],
        decreases n - i,
    {
        assert(0 <= sorted@[i as int].1 < s.len());
        let at: usize = sorted[i].1 as usize;
        assert(view[at as int] == s@[at as int].deep_view());
        out.push(Change { a: copy_excerpt(&s[at].a), b: copy_excerpt(&s[at].b) });
        i = i + 1;
    }
    assert(out.deep_view() =~= longest_of(view));
    out
}

fn head(s: &Vec<Change>, max: usize) -> (out: Vec<Change>)
    ensures
        out.deep_view() == s.deep_view().take(at_most(s.deep_view().len(), max) as int),
{
    let ghost view = s.deep_view();
    let n: usize = if s.len() < max {
        s.len()
    } else {
        max
    };
    let mut out: Vec<Change> = Vec::new();
    let mut i: usize = 0;
    assert(out.deep_view() =~= view.take(0));
    while i < n
        invariant
            i <= n <= s.len(),
            view == s.deep_view(),
            out.deep_view() == view.take(i as int),
        decreases n - i,
    {
        assert(view[i as int] == s@[i as int].deep_view());
        put(&mut out, Change { a: copy_excerpt(&s[i].a), b: copy_excerpt(&s[i].b) });
        assert(view.take(i + 1) =~= view.take(i as int).push(view[i as int]));
        i = i + 1;
    }
    out
}

/// Two stretches side by side, with the texts of their files.
pub fn compare(a: &Loc, b: &Loc, fa: &str, fb: &str) -> (r: Comparison)
    ensures
        r.deep_view() == compared(a.deep_view(), b.deep_view(), lines_of(fa@), lines_of(fb@)),
{
    let ghost av = a.deep_view();
    let ghost bv = b.deep_view();
    let mut shared: Vec<Change> = Vec::new();
    let mut different: Vec<Change> = Vec::new();
    assert(shared.deep_view() =~= Seq::<ChangeView>::empty());
    assert(different.deep_view() =~= Seq::<ChangeView>::empty());
    let long_a = a.end_line >= a.start_line && a.end_line - a.start_line >= MAX_LINES;
    let long_b = b.end_line >= b.start_line && b.end_line - b.start_line >= MAX_LINES;
    if long_a || long_b {
        return Comparison {
            a: copy_loc(a),
            b: copy_loc(b),
            shared,
            differences: different,
            shared_blocks_omitted: 0,
            differences_omitted: 0,
            skipped: true,
        };
    }
    let la = lines(fa);
    let lb = lines(fb);
    let x = find_code(&la, a);
    let y = find_code(&lb, b);
    let ghost xv = x.deep_view();
    let ghost yv = y.deep_view();
    let ghost lav = la.deep_view();
    let ghost lbv = lb.deep_view();
    let blocks = find_blocks(&x, &y);
    let mut n: usize = 0;
    while n < blocks.len()
        invariant
            n <= blocks.len(),
            av == a.deep_view(),
            bv == b.deep_view(),
            xv == x.deep_view(),
            yv == y.deep_view(),
            lav == la.deep_view(),
            lbv == lb.deep_view(),
            within(xv, la.len() as nat),
            within(yv, lb.len() as nat),
            rising(xv),
            rising(yv),
            forall|k: int|
                0 <= k < blocks.len() ==> (#[trigger] blocks@[k]).a <= blocks@[k].a_end <= x.len() && blocks@[k].b
                    <= blocks@[k].b_end <= y.len(),
            shared.deep_view() == changes_of(blocks@, true, av, bv, xv, yv, lav, lbv, n as int),
            different.deep_view() == changes_of(blocks@, false, av, bv, xv, yv, lav, lbv, n as int),
        decreases blocks.len() - n,
    {
        let k: Block = blocks[n];
        assert(blocks@[n as int].a <= blocks@[n as int].a_end <= x.len());
        let change = Change { a: excerpt(a, &x, k.a, k.a_end, &la), b: excerpt(b, &y, k.b, k.b_end, &lb) };
        if k.shared {
            put(&mut shared, change);
        } else {
            put(&mut different, change);
        }
        n = n + 1;
    }
    assert(shared.len() == shared.deep_view().len());
    assert(different.len() == different.deep_view().len());
    Comparison {
        a: copy_loc(a),
        b: copy_loc(b),
        shared: longest(&shared),
        differences: head(&different, MAX_DIFFERENCES),
        shared_blocks_omitted: if shared.len() > MAX_SHARED {
            shared.len() - MAX_SHARED
        } else {
            0
        },
        differences_omitted: if different.len() > MAX_DIFFERENCES {
            different.len() - MAX_DIFFERENCES
        } else {
            0
        },
        skipped: false,
    }
}

// ---------- laws ----------

/// The number of blocks that go into the shared and the differing ones is that of all blocks: each
/// block is shown on one side or the other.
pub proof fn every_block_is_shown(
    blocks: Seq<Block>,
    la: LocView,
    lb: LocView,
    x: Seq<Line>,
    y: Seq<Line>,
    fa: Seq<Chars>,
    fb: Seq<Chars>,
    n: int,
)
    requires
        0 <= n <= blocks.len(),
    ensures
        changes_of(blocks, true, la, lb, x, y, fa, fb, n).len() + changes_of(blocks, false, la, lb, x, y, fa, fb, n).len() == n,
    decreases n,
{
    if n > 0 {
        every_block_is_shown(blocks, la, lb, x, y, fa, fb, n - 1);
    }
}

proof fn shared_end(x: Seq<Line>, y: Seq<Line>, i: int, j: int)
    requires
        0 <= i <= x.len(),
        0 <= j <= y.len(),
    ensures
        ({
            let (a, b) = block_end(x, y, i, j, true);
            &&& i <= a <= x.len()
            &&& a - i == b - j
            &&& b <= y.len()
            &&& forall|p: int, q: int| i <= p < a && q - j == p - i ==> (#[trigger] x[p]).1 == (#[trigger] y[q]).1
        }),
    decreases x.len() - i,
{
    if equal_at(x, y, i, j) {
        shared_end(x, y, i + 1, j + 1);
        let (a, b) = block_end(x, y, i, j, true);
        assert(block_end(x, y, i + 1, j + 1, true) == (a, b));
        assert forall|p: int, q: int| i <= p < a && q - j == p - i implies (#[trigger] x[p]).1 == (#[trigger] y[q]).1 by {
            if p > i {
                assert(q - (j + 1) == p - (i + 1));
            }
        }
    }
}

proof fn end_is_inside(x: Seq<Line>, y: Seq<Line>, i: int, j: int, shared: bool)
    requires
        0 <= i <= x.len(),
        0 <= j <= y.len(),
    ensures
        ({
            let (a, b) = block_end(x, y, i, j, shared);
            &&& i <= a <= x.len()
            &&& j <= b <= y.len()
            &&& (i < x.len() || j < y.len()) && equal_at(x, y, i, j) == shared ==> a + b > i + j
        }),
    decreases x.len() - i + y.len() - j,
{
    if (i < x.len() || j < y.len()) && equal_at(x, y, i, j) == shared {
        let (a, b) = step(x, y, i, j);
        end_is_inside(x, y, a, b, shared);
    }
}

/// The lines of a block are equal, one for one.
pub open spec fn block_is_equal(x: Seq<Line>, y: Seq<Line>, k: Block) -> bool {
    k.a_end - k.a == k.b_end - k.b && forall|p: int, q: int|
        k.a <= p < k.a_end && q - k.b == p - k.a ==> (#[trigger] x[p]).1 == (#[trigger] y[q]).1
}

/// Each block starts where the one before it ends.
pub open spec fn blocks_follow(s: Seq<Block>) -> bool {
    forall|k: int, l: int|
        0 <= k && l == k + 1 && l < s.len() ==> (#[trigger] s[k]).a_end == (#[trigger] s[l]).a && s[k].b_end == s[l].b
}

/// The lines of every shared block are equal.
#[verifier::spinoff_prover]
pub proof fn shared_blocks_are_equal(x: Seq<Line>, y: Seq<Line>, i: int, j: int)
    requires
        0 <= i <= x.len() <= usize::MAX,
        0 <= j <= y.len() <= usize::MAX,
    ensures
        forall|k: int|
            0 <= k < blocks_from(x, y, i, j).len() && (#[trigger] blocks_from(x, y, i, j)[k]).shared ==> block_is_equal(
                x,
                y,
                blocks_from(x, y, i, j)[k],
            ),
    decreases x.len() - i + y.len() - j,
{
    if i < x.len() || j < y.len() {
        let s = blocks_from(x, y, i, j);
        let shared = equal_at(x, y, i, j);
        let (a, b) = block_end(x, y, i, j, shared);
        end_is_inside(x, y, i, j, shared);
        shared_blocks_are_equal(x, y, a, b);
        let rest = blocks_from(x, y, a, b);
        assert(s.len() == rest.len() + 1);
        assert forall|k: int| 0 <= k < s.len() && (#[trigger] s[k]).shared implies block_is_equal(x, y, s[k]) by {
            if k > 0 {
                assert(s[k] == rest[k - 1]);
            } else {
                shared_end(x, y, i, j);
                assert(s[0] == (Block { shared, a: i as usize, a_end: a as usize, b: j as usize, b_end: b as usize }));
            }
        }
    }
}

/// The blocks of two functions follow one another from the first lines to the last.
#[verifier::spinoff_prover]
pub proof fn blocks_cover_both(x: Seq<Line>, y: Seq<Line>, i: int, j: int)
    requires
        0 <= i <= x.len() <= usize::MAX,
        0 <= j <= y.len() <= usize::MAX,
    ensures
        ({
            let s = blocks_from(x, y, i, j);
            &&& s.len() == 0 <==> i == x.len() && j == y.len()
            &&& s.len() > 0 ==> s[0].a == i && s[0].b == j && s.last().a_end == x.len() && s.last().b_end == y.len()
            &&& blocks_follow(s)
        }),
    decreases x.len() - i + y.len() - j,
{
    if i < x.len() || j < y.len() {
        let s = blocks_from(x, y, i, j);
        let shared = equal_at(x, y, i, j);
        let (a, b) = block_end(x, y, i, j, shared);
        end_is_inside(x, y, i, j, shared);
        blocks_cover_both(x, y, a, b);
        let rest = blocks_from(x, y, a, b);
        assert(s.len() == rest.len() + 1);
        assert(s[0] == (Block { shared, a: i as usize, a_end: a as usize, b: j as usize, b_end: b as usize }));
        if rest.len() > 0 {
            assert(s.last() == rest.last());
        } else {
            assert(s.last() == s[0]);
        }
        assert forall|k: int, l: int| 0 <= k && l == k + 1 && l < s.len() implies (#[trigger] s[k]).a_end == (#[trigger] s[l]).a
            && s[k].b_end == s[l].b by {
            assert(s[l] == rest[l - 1]);
            if k > 0 {
                assert(s[k] == rest[k - 1]);
            }
        }
    }
}

} // verus!
