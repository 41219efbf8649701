//! The text of a report.

use vstd::prelude::*;

use crate::dead::analyze::{DeadReport, FileDead, FileDeadView, ReportView};
use crate::dead::report::{is_listed, rank_of, span, Category, SymbolReport, SymbolView};
use crate::order::{ordered, stable_order, Key, KeyView};
use crate::rows::{first_rows, top_rows};
use crate::text::{
    add_lines, align_left, align_right, decimal, digits, left_aligned, lines_after, plus, put, right_aligned, Chars,
};
use crate::tree::ints;

verus! {

/// `754 pub items checked in 81 files: 3 dead, 8 test-only, 154 referenced only in-file (23% with
/// no external production use); 4 dead shapes`.
pub open spec fn totals_text(r: ReportView, percent: Chars) -> Chars {
    let t = r.totals;
    digits(t.pub_items as nat) + " pub items checked in "@ + digits(t.files_indexed as nat) + " files"@ + (if t.exempt_items
        > 0 {
        " ("@ + digits(t.exempt_items as nat) + " more exempt: library API, entrypoints, unchecked languages)"@
    } else {
        Seq::empty()
    }) + ": "@ + digits(t.dead as nat) + " dead, "@ + digits(t.test_only as nat) + " test-only, "@ + digits(
        t.overexported as nat,
    ) + " referenced only in-file"@ + (if t.ambiguous > 0 {
        ", "@ + digits(t.ambiguous as nat) + " ambiguous"@
    } else {
        Seq::empty()
    }) + " ("@ + percent + "% with no external production use); "@ + digits(t.shapes as nat) + " dead shape"@ + (
    if t.shapes == 1 {
        Seq::empty()
    } else {
        "s"@
    })
}

/// The totals of a report in one line; `percent` is the share of items with no external
/// production use.
pub fn totals_line(r: &DeadReport, percent: &str) -> (o: String)
    ensures
        o@ == totals_text(r@, percent@),
{
    let t = &r.totals;
    let mut o = decimal(t.pub_items);
    o.append(" pub items checked in ");
    o.append(decimal(t.files_indexed).as_str());
    o.append(" files");
    let mut ex = String::new();
    if t.exempt_items > 0 {
        ex = plus(
            plus(" (".to_owned(), decimal(t.exempt_items).as_str()),
            " more exempt: library API, entrypoints, unchecked languages)",
        );
    }
    o.append(ex.as_str());
    o.append(": ");
    o.append(decimal(t.dead).as_str());
    o.append(" dead, ");
    o.append(decimal(t.test_only).as_str());
    o.append(" test-only, ");
    o.append(decimal(t.overexported).as_str());
    o.append(" referenced only in-file");
    let mut amb = String::new();
    if t.ambiguous > 0 {
        amb = plus(plus(", ".to_owned(), decimal(t.ambiguous).as_str()), " ambiguous");
    }
    o.append(amb.as_str());
    o.append(" (");
    o.append(percent);
    o.append("% with no external production use); ");
    o.append(decimal(t.shapes).as_str());
    o.append(" dead shape");
    let mut s = String::new();
    if t.shapes != 1 {
        s = "s".to_owned();
    }
    o.append(s.as_str());
    o
}

// ---------- listed symbols ----------

/// A listed symbol of the file at `i`, with its key.
pub open spec fn row_key(path: Chars, s: SymbolView) -> KeyView {
    KeyView {
        a: rank_of(s.category),
        b: (usize::MAX - span(s.start_line, s.end_line)) as usize,
        s: path,
        c: s.start_line,
    }
}

/// How a listed symbol prints.
pub open spec fn row_text(path: Chars, s: SymbolView) -> Chars {
    left_aligned(
        if s.category == Category::Dead {
            "DEAD"@
        } else if s.category == Category::TestOnly {
            "TESTONLY"@
        } else {
            "AMBIGUOUS"@
        },
        9,
    ) + " "@ + path + ":"@ + digits(s.start_line as nat) + "-"@ + digits(s.end_line as nat) + "  "@ + s.display
        + "  ext "@ + digits(s.external_prod_refs as nat) + "/"@ + digits(s.external_test_refs as nat) + " own "@
        + digits(s.own_prod_refs as nat) + "/"@ + digits(s.own_test_refs as nat) + " (prod/test), "@ + digits(
        s.doc_mentions as nat,
    ) + " doc mentions"@
}

/// The listed symbols of a file, with key and text.
pub open spec fn file_rows(path: Chars, symbols: Seq<SymbolView>) -> Seq<(KeyView, Chars)>
    decreases symbols.len(),
{
    if symbols.len() == 0 {
        Seq::empty()
    } else {
        let rest = file_rows(path, symbols.drop_last());
        if is_listed(symbols.last().category) {
            rest.push((row_key(path, symbols.last()), row_text(path, symbols.last())))
        } else {
            rest
        }
    }
}

/// The listed symbols of all files, with key and text.
pub open spec fn all_rows(files: Seq<(Chars, FileDeadView)>) -> Seq<(KeyView, Chars)>
    decreases files.len(),
{
    if files.len() == 0 {
        Seq::empty()
    } else {
        all_rows(files.drop_last()) + file_rows(files.last().0, files.last().1.symbols)
    }
}

fn row(path: &str, s: &SymbolReport) -> (r: (Key, String))
    ensures
        r.deep_view() == (row_key(path@, s.deep_view()), row_text(path@, s.deep_view())),
{
    let (rank, cat): (usize, &'static str) = if s.category == Category::Dead {
        (0, "DEAD")
    } else if s.category == Category::TestOnly {
        (1, "TESTONLY")
    } else {
        (2, "AMBIGUOUS")
    };
    let len: usize = if s.start_line <= s.end_line {
        s.end_line - s.start_line
    } else {
        0
    };
    let mut o = align_left(cat, 9);
    o.append(" ");
    o.append(path);
    o.append(":");
    o.append(decimal(s.start_line).as_str());
    o.append("-");
    o.append(decimal(s.end_line).as_str());
    o.append("  ");
    o.append(s.display.as_str());
    o.append("  ext ");
    o.append(decimal(s.external_prod_refs as usize).as_str());
    o.append("/");
    o.append(decimal(s.external_test_refs as usize).as_str());
    o.append(" own ");
    o.append(decimal(s.own_prod_refs as usize).as_str());
    o.append("/");
    o.append(decimal(s.own_test_refs as usize).as_str());
    o.append(" (prod/test), ");
    o.append(decimal(s.doc_mentions as usize).as_str());
    o.append(" doc mentions");
    (Key { a: rank, b: usize::MAX - len, s: path.to_owned(), c: s.start_line }, o)
}

fn rows_of_file(path: &str, symbols: &Vec<SymbolReport>, out: &mut Vec<(Key, String)>)
    ensures
        final(out).deep_view() == old(out).deep_view() + file_rows(path@, symbols.deep_view()),
{
    let ghost view = symbols.deep_view();
    let ghost start = out.deep_view();
    let mut k: usize = 0;
    assert(view.take(0) =~= Seq::<SymbolView>::empty());
    assert(start + Seq::<(KeyView, Chars)>::empty() =~= start);
    while k < symbols.len()
        invariant
            k <= symbols.len(),
            view == symbols.deep_view(),
            out.deep_view() == start + file_rows(path@, view.take(k as int)),
        decreases symbols.len() - k,
    {
        assert(view.take(k + 1).drop_last() =~= view.take(k as int));
        let s = &symbols[k];
        assert(view[k as int] == s.deep_view());
        if s.category == Category::Dead || s.category == Category::TestOnly || s.category == Category::Ambiguous {
            let ghost rest = file_rows(path@, view.take(k as int));
            let r = row(path, s);
            let ghost v = r.deep_view();
            put(out, r);
            assert((start + rest).push(v) =~= start + rest.push(v));
        }
        k = k + 1;
    }
    assert(view.take(view.len() as int) =~= view);
}

fn rows(r: &DeadReport) -> (out: Vec<(Key, String)>)
    ensures
        out.deep_view() == all_rows(r@.files),
{
    let ghost view = r@.files;
    let mut out: Vec<(Key, String)> = Vec::new();
    let mut k: usize = 0;
    assert(view.take(0) =~= Seq::<(Chars, FileDeadView)>::empty());
    assert(out.deep_view() =~= Seq::<(KeyView, Chars)>::empty());
    while k < r.files.len()
        invariant
            k <= r.files.len(),
            view == r@.files,
            out.deep_view() == all_rows(view.take(k as int)),
        decreases r.files.len() - k,
    {
        assert(view.take(k + 1).drop_last() =~= view.take(k as int));
        let f = &r.files[k];
        assert(view[k as int] == (f.0@, f.1.deep_view()));
        rows_of_file(f.0.as_str(), &f.1.symbols, &mut out);
        k = k + 1;
    }
    assert(view.take(view.len() as int) =~= view);
    out
}

// ---------- shapes and files ----------

/// The reasons of all shapes.
pub open spec fn shape_texts(files: Seq<(Chars, FileDeadView)>) -> Seq<Chars>
    decreases files.len(),
{
    if files.len() == 0 {
        Seq::empty()
    } else {
        let s = files.last().1.shapes;
        shape_texts(files.drop_last()) + Seq::new(s.len(), |i: int| s[i].reason)
    }
}

fn all_shapes(r: &DeadReport) -> (out: Vec<String>)
    ensures
        out.deep_view() == shape_texts(r@.files),
{
    let ghost view = r@.files;
    let mut out: Vec<String> = Vec::new();
    let mut k: usize = 0;
    assert(view.take(0) =~= Seq::<(Chars, FileDeadView)>::empty());
    assert(out.deep_view() =~= Seq::<Chars>::empty());
    while k < r.files.len()
        invariant
            k <= r.files.len(),
            view == r@.files,
            out.deep_view() == shape_texts(view.take(k as int)),
        decreases r.files.len() - k,
    {
        assert(view.take(k + 1).drop_last() =~= view.take(k as int));
        let shapes = &r.files[k].1.shapes;
        assert(view[k as int] == (r.files@[k as int].0@, r.files@[k as int].1.deep_view()));
        let ghost s = shapes.deep_view();
        let ghost texts = Seq::new(s.len(), |i: int| s[i].reason);
        let ghost start = out.deep_view();
        let mut j: usize = 0;
        assert(start + texts.take(0) =~= start);
        while j < shapes.len()
            invariant
                j <= shapes.len(),
                s == shapes.deep_view(),
                texts == Seq::new(s.len(), |i: int| s[i].reason),
                out.deep_view() == start + texts.take(j as int),
            decreases shapes.len() - j,
        {
            put(&mut out, shapes[j].reason.clone());
            assert(start + texts.take(j + 1) =~= (start + texts.take(j as int)).push(texts[j as int]));
            j = j + 1;
        }
        assert(texts.take(texts.len() as int) =~= texts);
        k = k + 1;
    }
    assert(view.take(view.len() as int) =~= view);
    out
}

/// The positions of the files with dead lines.
pub open spec fn deadly_at(files: Seq<(Chars, FileDeadView)>) -> Seq<int>
    decreases files.len(),
{
    if files.len() == 0 {
        Seq::empty()
    } else if files.last().1.dead_lines > 0 {
        deadly_at(files.drop_last()).push(files.len() - 1)
    } else {
        deadly_at(files.drop_last())
    }
}

/// The key of a file with dead lines: most first, then by path.
pub open spec fn deadly_key(f: (Chars, FileDeadView)) -> KeyView {
    KeyView { a: (usize::MAX - f.1.dead_lines) as usize, b: 0, s: f.0, c: 0 }
}

/// The keys of the files at `at`.
pub open spec fn deadly_keys(files: Seq<(Chars, FileDeadView)>, at: Seq<int>) -> Seq<KeyView> {
    Seq::new(at.len(), |i: int| deadly_key(files[at[i]]))
}

/// The positions of the `top` files with most dead lines.
pub open spec fn top_at(files: Seq<(Chars, FileDeadView)>, top: nat) -> Seq<int> {
    let at = deadly_at(files);
    let order = ordered(deadly_keys(files, at), at.len() as int);
    Seq::new(
        if at.len() < top {
            at.len()
        } else {
            top
        },
        |i: int| at[order[i]],
    )
}

/// The positions of the `top` files with dead lines, most first (then by path).
pub fn top_files(r: &DeadReport, top: usize) -> (out: Vec<usize>)
    ensures
        ints(out@) == top_at(r@.files, top as nat),
        forall|j: int| 0 <= j < out.len() ==> #[trigger] out@[j] < r.files.len(),
{
    let ghost view = r@.files;
    let mut at: Vec<usize> = Vec::new();
    let mut keys: Vec<Key> = Vec::new();
    let mut k: usize = 0;
    assert(view.take(0) =~= Seq::<(Chars, FileDeadView)>::empty());
    assert(ints(at@) =~= Seq::<int>::empty());
    assert(keys.deep_view() =~= deadly_keys(view, ints(at@)));
    while k < r.files.len()
        invariant
            k <= r.files.len(),
            view == r@.files,
            ints(at@) == deadly_at(view.take(k as int)),
            keys.deep_view() == deadly_keys(view, ints(at@)),
            forall|j: int| 0 <= j < at.len() ==> #[trigger] at@[j] < r.files.len(),
        decreases r.files.len() - k,
    {
        assert(view.take(k + 1).drop_last() =~= view.take(k as int));
        let f = &r.files[k];
        assert(view[k as int] == (f.0@, f.1.deep_view()));
        if f.1.dead_lines > 0 {
            let ghost was = ints(at@);
            at.push(k);
            assert(ints(at@) =~= was.push(k as int));
            put(&mut keys, Key { a: usize::MAX - f.1.dead_lines, b: 0, s: f.0.clone(), c: 0 });
            assert(keys.deep_view() =~= deadly_keys(view, ints(at@)));
        }
        k = k + 1;
    }
    assert(view.take(view.len() as int) =~= view);
    let order = stable_order(&keys);
    assert(keys.len() == keys.deep_view().len());
    let ghost want = top_at(view, top as nat);
    let mut out: Vec<usize> = Vec::new();
    k = 0;
    assert(ints(out@) =~= want.take(0));
    while k < order.len() && k < top
        invariant
            k <= order.len() == at.len(),
            k <= top,
            want == top_at(view, top as nat),
            ints(at@) == deadly_at(view),
            ints(order@) == ordered(deadly_keys(view, ints(at@)), at.len() as int),
            forall|j: int| 0 <= j < order.len() ==> #[trigger] order@[j] < at.len(),
            forall|j: int| 0 <= j < at.len() ==> #[trigger] at@[j] < r.files.len(),
            forall|j: int| 0 <= j < out.len() ==> #[trigger] out@[j] < r.files.len(),
            ints(out@) == want.take(k as int),
        decreases order.len() - k,
    {
        let ghost was = ints(out@);
        let o: usize = order[k];
        assert(ints(order@)[k as int] == o as int);
        assert(ints(at@)[o as int] == at@[o as int] as int);
        out.push(at[o]);
        assert(ints(out@) =~= was.push(at@[o as int] as int));
        assert(want.take(k + 1) =~= want.take(k as int).push(want[k as int]));
        k = k + 1;
    }
    assert(want.take(want.len() as int) =~= want);
    out
}

/// How a file with dead lines prints; `ratio` is its dead share in percent.
pub open spec fn file_row(f: (Chars, FileDeadView), ratio: Chars) -> Chars {
    let fd = f.1;
    right_aligned(digits(fd.dead_lines), 5) + " "@ + right_aligned(ratio, 4) + "%  "@ + right_aligned(
        digits(fd.dead_count) + "/"@ + digits(fd.test_only_count) + "/"@ + digits(fd.overexported_count) + " of "@
            + digits(fd.pub_items),
        14,
    ) + "  "@ + f.0
}

/// The files of a list, one line each.
pub open spec fn file_rows_text(files: Seq<(Chars, FileDeadView)>, at: Seq<int>, ratios: Seq<Chars>) -> Seq<Chars> {
    Seq::new(
        at.len(),
        |i: int|
            file_row(
                files[at[i]],
                if i < ratios.len() {
                    ratios[i]
                } else {
                    Seq::empty()
                },
            ),
    )
}

fn deadly_row(f: &(String, FileDead), ratio: &str) -> (r: String)
    ensures
        r@ == file_row((f.0@, f.1.deep_view()), ratio@),
{
    let fd = &f.1;
    let mut counts = decimal(fd.dead_count);
    counts.append("/");
    counts.append(decimal(fd.test_only_count).as_str());
    counts.append("/");
    counts.append(decimal(fd.overexported_count).as_str());
    counts.append(" of ");
    counts.append(decimal(fd.pub_items).as_str());
    let mut o = align_right(decimal(fd.dead_lines).as_str(), 5);
    o.append(" ");
    o.append(align_right(ratio, 4).as_str());
    o.append("%  ");
    o.append(align_right(counts.as_str(), 14).as_str());
    o.append("  ");
    o.append(f.0.as_str());
    o
}

/// The first `top` of a list.
pub open spec fn first_of(list: Seq<Chars>, top: nat) -> Seq<Chars> {
    if list.len() < top {
        list
    } else {
        list.take(top as int)
    }
}

/// `none` where a list is empty, else its first `top` lines.
pub open spec fn some_lines(acc: Chars, all: nat, list: Seq<Chars>) -> Chars {
    lines_after(
        if all == 0 {
            acc + "  none\n"@
        } else {
            acc
        },
        list,
        "  "@,
        0,
    )
}

/// The whole text.
pub open spec fn rendered(r: ReportView, percent: Chars, ratios: Seq<Chars>, top: nat) -> Chars {
    let modes = lines_after(Seq::empty(), r.modes, "mode  "@, 0);
    let totals = modes + totals_text(r, percent) + "\n"@;
    let notes = lines_after(totals, r.notes, "note  "@, 0);
    let symbols = some_lines(
        notes + "\ndead and test-only symbols (longest first):\n"@,
        all_rows(r.files).len(),
        top_rows(all_rows(r.files), top),
    );
    let shapes = some_lines(
        symbols + "\ndead shapes:\n"@,
        shape_texts(r.files).len(),
        first_of(shape_texts(r.files), top),
    );
    lines_after(
        shapes + "\nfiles by dead lines (dead / test-only / in-file-only of pub items):\n"@
            + "  lines ratio  d/t/i of items  path\n"@,
        file_rows_text(r.files, top_at(r.files, top), ratios),
        "  "@,
        0,
    )
}

/// The text of a report, `top` entries of each list. `percent` is the share of items with no
/// external production use, `ratios` are the dead shares of the listed files, both in percent.
pub fn render(r: &DeadReport, percent: &str, ratios: &Vec<String>, top: usize) -> (o: String)
    ensures
        o@ == rendered(r@, percent@, ratios.deep_view(), top as nat),
{
    let mut o = String::new();
    add_lines(&mut o, &r.modes, "mode  ");
    o.append(totals_line(r, percent).as_str());
    o.append("\n");
    add_lines(&mut o, &r.notes, "note  ");
    o.append("\ndead and test-only symbols (longest first):\n");
    let rows = rows(r);
    assert(rows.len() == rows.deep_view().len());
    if rows.len() == 0 {
        o.append("  none\n");
    }
    add_lines(&mut o, &first_rows(&rows, top), "  ");
    o.append("\ndead shapes:\n");
    let mut shapes = all_shapes(r);
    let ghost all = shapes.deep_view();
    assert(shapes.len() == all.len());
    if shapes.len() == 0 {
        o.append("  none\n");
    }
    shapes.truncate(top);
    assert(shapes.deep_view() =~= first_of(all, top as nat));
    add_lines(&mut o, &shapes, "  ");
    o.append("\nfiles by dead lines (dead / test-only / in-file-only of pub items):\n");
    o.append("  lines ratio  d/t/i of items  path\n");
    let at = top_files(r, top);
    let ghost want = file_rows_text(r@.files, ints(at@), ratios.deep_view());
    let empty = String::new();
    assert(empty@ =~= Seq::<char>::empty());
    let mut files: Vec<String> = Vec::new();
    let mut k: usize = 0;
    assert(files.deep_view() =~= want.take(0));
    while k < at.len()
        invariant
            k <= at.len(),
            empty@ == Seq::<char>::empty(),
            want == file_rows_text(r@.files, ints(at@), ratios.deep_view()),
            forall|j: int| 0 <= j < at.len() ==> #[trigger] at@[j] < r.files.len(),
            files.deep_view() == want.take(k as int),
        decreases at.len() - k,
    {
        let ratio = if k < ratios.len() {
            ratios[k].as_str()
        } else {
            empty.as_str()
        };
        assert(k < ratios.len() ==> ratios.deep_view()[k as int] == ratio@);
        let f = &r.files[at[k]];
        assert(r@.files[ints(at@)[k as int]] == (f.0@, f.1.deep_view()));
        put(&mut files, deadly_row(f, ratio));
        assert(want.take(k + 1) =~= want.take(k as int).push(want[k as int]));
        k = k + 1;
    }
    assert(want.take(want.len() as int) =~= want);
    add_lines(&mut o, &files, "  ");
    o
}

} // verus!
