//! The report on parameter clumps as text.

use vstd::prelude::*;

use crate::clumps::clump::ClumpView;
use crate::clumps::report::{ClumpsReport, FileClumps, FileView, ReportView};
use crate::sorting::{sort_rows, sorted_rows, sorted_rows_are_sorted, sorted_rows_hold, Row};
use crate::text::{add_lines, align_right, decimal, digits, lines_after, right_aligned, Chars};

verus! {

/// Shares of the analysed functions, with one decimal: `3.5`.
pub struct Percents {
    pub in_clumps: String,
    pub silenced: String,
}

/// `11 clumps over 27 of 774 functions (3.5%) in 9 files; 11 functions (1.4%) carry a _-prefixed parameter`.
pub open spec fn totals_text(r: ReportView, prefix: Chars, in_clumps: Chars, silenced: Chars) -> Chars {
    let t = r.totals;
    digits(t.clumps as nat) + " clumps over "@ + digits(t.in_clumps as nat) + " of "@ + digits(t.functions as nat)
        + " functions ("@ + in_clumps + "%) in "@ + digits(t.files as nat) + " files"@ + (if prefix.len() == 0 {
        ""@
    } else {
        "; "@ + digits(t.silenced_functions as nat) + " functions ("@ + silenced + "%) carry a "@ + prefix
            + "-prefixed parameter"@
    })
}

/// The counts of a report in one line.
pub fn totals_line(r: &ClumpsReport, prefix: &str, percents: &Percents) -> (o: String)
    ensures
        o@ == totals_text(r.deep_view(), prefix@, percents.in_clumps@, percents.silenced@),
{
    let t = &r.totals;
    let marked = if prefix.is_empty() {
        "".to_owned()
    } else {
        let mut s = "; ".to_owned();
        s.append(decimal(t.silenced_functions).as_str());
        s.append(" functions (");
        s.append(percents.silenced.as_str());
        s.append("%) carry a ");
        s.append(prefix);
        s.append("-prefixed parameter");
        s
    };
    let mut o = decimal(t.clumps);
    o.append(" clumps over ");
    o.append(decimal(t.in_clumps).as_str());
    o.append(" of ");
    o.append(decimal(t.functions).as_str());
    o.append(" functions (");
    o.append(percents.in_clumps.as_str());
    o.append("%) in ");
    o.append(decimal(t.files).as_str());
    o.append(" files");
    o.append(marked.as_str());
    o
}

/// The lines of the clumps from `k` to `n`.
pub open spec fn clump_lines(acc: Chars, clumps: Seq<ClumpView>, k: int, n: int) -> Chars
    decreases n - k,
{
    if k >= n {
        acc
    } else {
        clump_lines(acc + "  "@ + clumps[k].line + "\n"@, clumps, k + 1, n)
    }
}

/// The rows by which files are ordered: the most members first; the report has them by path.
pub open spec fn member_rows(files: Seq<(Chars, FileView)>) -> Seq<Row> {
    Seq::new(files.len(), |i: int| (-(files[i].1.members as i128) as i128, i as i128, 0, 0, 0, 0))
}

/// The lines of one file.
pub open spec fn file_lines(acc: Chars, f: (Chars, FileView)) -> Chars {
    lines_after(
        acc + "  "@ + right_aligned(digits(f.1.members), 5) + "  "@ + f.0 + "\n"@,
        f.1.reasons,
        "         - "@,
        0,
    )
}

/// The lines of the files in rows from `k` to `n`.
pub open spec fn rows_lines(acc: Chars, files: Seq<(Chars, FileView)>, rows: Seq<Row>, k: int, n: int) -> Chars
    decreases n - k,
{
    if k >= n {
        acc
    } else {
        rows_lines(file_lines(acc, files[rows[k].1 as int]), files, rows, k + 1, n)
    }
}

/// At most so many.
pub open spec fn at_most(n: nat, top: usize) -> nat {
    if n < top {
        n
    } else {
        top as nat
    }
}

/// The report as text.
pub open spec fn text_of(r: ReportView, top: usize, prefix: Chars, in_clumps: Chars, silenced: Chars) -> Chars {
    let head = if r.totals.functions == 0 {
        "none\n"@
    } else {
        totals_text(r, prefix, in_clumps, silenced) + "\n"@
    };
    let noted = lines_after(head, r.notes, "note  "@, 0) + "\nclumps (functions, files):\n"@;
    let listed = if r.clumps.len() == 0 {
        noted + "  none\n"@
    } else {
        noted
    };
    let clumps = clump_lines(listed, r.clumps, 0, at_most(r.clumps.len(), top) as int)
        + "\nfiles (functions in clumps):\n"@;
    let filed = if r.files.len() == 0 {
        clumps + "  none\n"@
    } else {
        clumps
    };
    rows_lines(filed, r.files, sorted_rows(member_rows(r.files)), 0, at_most(r.files.len(), top) as int)
}

fn order_of(files: &Vec<(String, FileClumps)>) -> (out: Vec<Row>)
    ensures
        out@ == sorted_rows(member_rows(files.deep_view())),
        out.len() == files.len(),
        forall|i: int| 0 <= i < out.len() ==> 0 <= (#[trigger] out@[i]).1 < files.len(),
{
    let ghost view = files.deep_view();
    let ghost want = member_rows(view);
    let mut rows: Vec<Row> = Vec::new();
    let mut i: usize = 0;
    while i < files.len()
        invariant
            i <= files.len(),
            i == rows.len(),
            view == files.deep_view(),
            want == member_rows(view),
            forall|j: int| 0 <= j < i ==> #[trigger] rows@[j] == want[j],
        decreases files.len() - i,
    {
        assert(view[i as int] == files@[i as int].deep_view());
        rows.push((-(files[i].1.members as i128), i as i128, 0, 0, 0, 0));
        i = i + 1;
    }
    assert(rows@ =~= want);
    let out = sort_rows(&rows);
    proof {
        sorted_rows_are_sorted(want);
        assert forall|j: int| 0 <= j < out.len() implies 0 <= (#[trigger] out@[j]).1 < files.len() by {
            sorted_rows_hold(want, out@[j]);
            assert(out@.contains(out@[j]));
            let m = choose|m: int| 0 <= m < want.len() && want[m] == out@[j];
            assert(want[m].1 == m);
        }
    }
    out
}

/// The report as text, at most `top` clumps and `top` files.
pub fn render(r: &ClumpsReport, top: usize, prefix: &str, percents: &Percents) -> (o: String)
    ensures
        o@ == text_of(r.deep_view(), top, prefix@, percents.in_clumps@, percents.silenced@),
{
    let ghost rv = r.deep_view();
    let mut o = if r.totals.functions == 0 {
        "none\n".to_owned()
    } else {
        let mut s = totals_line(r, prefix, percents);
        s.append("\n");
        s
    };
    add_lines(&mut o, &r.notes, "note  ");
    o.append("\nclumps (functions, files):\n");
    assert(r.clumps.len() == rv.clumps.len());
    assert(r.files.len() == rv.files.len());
    if r.clumps.len() == 0 {
        o.append("  none\n");
    }
    let n: usize = if r.clumps.len() < top {
        r.clumps.len()
    } else {
        top
    };
    let ghost whole = clump_lines(o@, rv.clumps, 0, n as int);
    let mut k: usize = 0;
    while k < n
        invariant
            k <= n <= r.clumps.len(),
            rv == r.deep_view(),
            whole == clump_lines(o@, rv.clumps, k as int, n as int),
        decreases n - k,
    {
        assert(r.clumps.deep_view()[k as int] == r.clumps@[k as int].deep_view());
        o.append("  ");
        o.append(r.clumps[k].line.as_str());
        o.append("\n");
        k = k + 1;
    }
    o.append("\nfiles (functions in clumps):\n");
    if r.files.len() == 0 {
        o.append("  none\n");
    }
    let rows = order_of(&r.files);
    let n: usize = if r.files.len() < top {
        r.files.len()
    } else {
        top
    };
    let ghost all = rows_lines(o@, rv.files, rows@, 0, n as int);
    let mut k: usize = 0;
    while k < n
        invariant
            k <= n <= r.files.len(),
            rows.len() == r.files.len(),
            rv == r.deep_view(),
            forall|i: int| 0 <= i < rows.len() ==> 0 <= (#[trigger] rows@[i]).1 < r.files.len(),
            all == rows_lines(o@, rv.files, rows@, k as int, n as int),
        decreases n - k,
    {
        assert(0 <= rows@[k as int].1 < r.files.len());
        let at: usize = rows[k].1 as usize;
        let f = &r.files[at];
        assert(r.files.deep_view()[at as int] == f.deep_view());
        o.append("  ");
        o.append(align_right(decimal(f.1.members).as_str(), 5).as_str());
        o.append("  ");
        o.append(f.0.as_str());
        o.append("\n");
        add_lines(&mut o, &f.1.reasons, "         - ");
        k = k + 1;
    }
    o
}

} // verus!
