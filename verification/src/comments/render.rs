//! The text of a report.

use vstd::prelude::*;

use crate::comments::phases::{UnitPhases, UnitView};
use crate::comments::report::{CommentsReport, CommentsView, FileView};
use crate::config::Comments;
use crate::order::{Key, KeyView};
use crate::rows::{add_listing, listing};
use crate::text::{decimal, digits, plus, put, Chars};

verus! {

/// The two lines of sums.
pub open spec fn sums_text(r: CommentsView, cfg: Comments, percentile: Chars) -> Chars {
    let t = r.totals;
    let b = cfg.banners;
    digits(t.banners as nat) + " top-level banners in "@ + digits(t.files_with_banners as nat) + " of "@ + digits(
        t.files as nat,
    ) + " source files; "@ + digits(t.banner_hits as nat) + " cut into >= "@ + digits(b.min_sections as nat)
        + " labelled sections (largest >= "@ + digits(b.min_section_lines as nat) + " lines, file >= "@ + digits(
        b.min_file_lines as nat,
    ) + " lines, size percentile >= "@ + percentile + ")"@ + (if t.banner_below_percentile > 0 {
        " (+"@ + digits(t.banner_below_percentile as nat) + " below the percentile, printed only as hotspots)"@
    } else {
        Seq::empty()
    }) + "\n"@ + digits(t.phase_comments as nat) + " phase comments in functions over the cognitive floor; "@ + digits(
        t.phase_hits as nat,
    ) + " functions with >= "@ + digits(cfg.phases.min_phases as nat) + " phases of >= "@ + digits(
        cfg.phases.min_phase_lines as nat,
    ) + " lines spanning >= "@ + digits(cfg.phases.min_span_lines as nat) + " lines\n\n"@
}

fn sums(r: &CommentsReport, cfg: &Comments, percentile: &str) -> (o: String)
    ensures
        o@ == sums_text(r@, *cfg, percentile@),
{
    let t = r.totals;
    let b = &cfg.banners;
    let mut o = decimal(t.banners);
    o.append(" top-level banners in ");
    o.append(decimal(t.files_with_banners).as_str());
    o.append(" of ");
    o.append(decimal(t.files).as_str());
    o.append(" source files; ");
    o.append(decimal(t.banner_hits).as_str());
    o.append(" cut into >= ");
    o.append(decimal(b.min_sections).as_str());
    o.append(" labelled sections (largest >= ");
    o.append(decimal(b.min_section_lines).as_str());
    o.append(" lines, file >= ");
    o.append(decimal(b.min_file_lines).as_str());
    o.append(" lines, size percentile >= ");
    o.append(percentile);
    o.append(")");
    let mut below = String::new();
    if t.banner_below_percentile > 0 {
        below = plus(
            plus(" (+".to_owned(), decimal(t.banner_below_percentile).as_str()),
            " below the percentile, printed only as hotspots)",
        );
    }
    o.append(below.as_str());
    o.append("\n");
    o.append(decimal(t.phase_comments).as_str());
    o.append(" phase comments in functions over the cognitive floor; ");
    o.append(decimal(t.phase_hits).as_str());
    o.append(" functions with >= ");
    o.append(decimal(cfg.phases.min_phases).as_str());
    o.append(" phases of >= ");
    o.append(decimal(cfg.phases.min_phase_lines).as_str());
    o.append(" lines spanning >= ");
    o.append(decimal(cfg.phases.min_span_lines).as_str());
    o.append(" lines\n\n");
    o
}

/// A row per file that is cut into sections, by path.
pub open spec fn banner_rows(files: Seq<(Chars, FileView)>) -> Seq<(KeyView, Chars)>
    decreases files.len(),
{
    if files.len() == 0 {
        Seq::empty()
    } else {
        let rest = banner_rows(files.drop_last());
        let (p, f) = files.last();
        if f.qualifies {
            rest.push((KeyView { a: 0, b: 0, s: p, c: 0 }, banner_row(p, f)))
        } else {
            rest
        }
    }
}

/// How a file that is cut into sections prints.
pub open spec fn banner_row(p: Chars, f: FileView) -> Chars {
    p + ": "@ + (match f.banner_reason {
        Some(r) => r,
        None => Seq::empty(),
    }) + (if f.above_size_percentile {
        Seq::empty()
    } else {
        "  (size percentile "@ + f.size_percentile + ": hotspot list only)"@
    })
}

/// A row per unit of a file.
pub open spec fn unit_rows(p: Chars, units: Seq<UnitView>) -> Seq<(KeyView, Chars)> {
    Seq::new(
        units.len(),
        |i: int|
            (
                KeyView { a: (u32::MAX - units[i].cognitive) as usize, b: 0, s: p, c: units[i].start_line },
                p + ": "@ + units[i].reason,
            ),
    )
}

/// A row per unit of all files: the most complex first, then by path and line.
pub open spec fn phase_rows(files: Seq<(Chars, FileView)>) -> Seq<(KeyView, Chars)>
    decreases files.len(),
{
    if files.len() == 0 {
        Seq::empty()
    } else {
        phase_rows(files.drop_last()) + unit_rows(files.last().0, files.last().1.units)
    }
}

fn rows_of_banners(r: &CommentsReport) -> (out: Vec<(Key, String)>)
    ensures
        out.deep_view() == banner_rows(r@.files),
{
    let ghost view = r@.files;
    let mut out: Vec<(Key, String)> = Vec::new();
    let mut k: usize = 0;
    assert(view.take(0) =~= Seq::<(Chars, FileView)>::empty());
    assert(out.deep_view() =~= Seq::<(KeyView, Chars)>::empty());
    while k < r.files.len()
        invariant
            k <= r.files.len(),
            view == r@.files,
            out.deep_view() == banner_rows(view.take(k as int)),
        decreases r.files.len() - k,
    {
        assert(view.take(k + 1).drop_last() =~= view.take(k as int));
        let f = &r.files[k].1;
        let p = r.files[k].0.as_str();
        assert(view[k as int] == (p@, f.deep_view()));
        if f.qualifies {
            let mut o = p.to_owned();
            o.append(": ");
            let reason = match &f.banner_reason {
                Some(x) => x.as_str().to_owned(),
                None => String::new(),
            };
            o.append(reason.as_str());
            let mut note = String::new();
            if !f.above_size_percentile {
                note = plus(plus("  (size percentile ".to_owned(), f.size_percentile.as_str()), ": hotspot list only)");
            }
            o.append(note.as_str());
            put(&mut out, (Key { a: 0, b: 0, s: p.to_owned(), c: 0 }, o));
        }
        k = k + 1;
    }
    assert(view.take(view.len() as int) =~= view);
    out
}

fn add_units(p: &str, units: &Vec<UnitPhases>, out: &mut Vec<(Key, String)>)
    ensures
        final(out).deep_view() == old(out).deep_view() + unit_rows(p@, units.deep_view()),
{
    let ghost view = units.deep_view();
    let ghost start = out.deep_view();
    let ghost all = unit_rows(p@, view);
    let mut k: usize = 0;
    assert(start + all.take(0) =~= start);
    while k < units.len()
        invariant
            k <= units.len(),
            view == units.deep_view(),
            all == unit_rows(p@, view),
            out.deep_view() == start + all.take(k as int),
        decreases units.len() - k,
    {
        let u = &units[k];
        assert(view[k as int] == u.deep_view());
        let rank: u32 = u32::MAX - u.cognitive;
        put(
            out,
            (
                Key { a: rank as usize, b: 0, s: p.to_owned(), c: u.start_line },
                plus(plus(p.to_owned(), ": "), u.reason.as_str()),
            ),
        );
        assert((start + all.take(k as int)).push(all[k as int]) =~= start + all.take(k + 1));
        k = k + 1;
    }
    assert(all.take(view.len() as int) =~= all);
}

fn rows_of_phases(r: &CommentsReport) -> (out: Vec<(Key, String)>)
    ensures
        out.deep_view() == phase_rows(r@.files),
{
    let ghost view = r@.files;
    let mut out: Vec<(Key, String)> = Vec::new();
    let mut k: usize = 0;
    assert(view.take(0) =~= Seq::<(Chars, FileView)>::empty());
    assert(out.deep_view() =~= Seq::<(KeyView, Chars)>::empty());
    while k < r.files.len()
        invariant
            k <= r.files.len(),
            view == r@.files,
            out.deep_view() == phase_rows(view.take(k as int)),
        decreases r.files.len() - k,
    {
        assert(view.take(k + 1).drop_last() =~= view.take(k as int));
        let f = &r.files[k];
        assert(view[k as int] == (f.0@, f.1.deep_view()));
        add_units(f.0.as_str(), &f.1.units, &mut out);
        k = k + 1;
    }
    assert(view.take(view.len() as int) =~= view);
    out
}

/// The text of a report.
pub open spec fn rendered(r: CommentsView, top: nat, cfg: Comments, percentile: Chars) -> Chars {
    let banners = listing(
        sums_text(r, cfg, percentile) + "BANNERS  (files cut into labelled sections; the largest is the split)\n"@,
        banner_rows(r.files),
        top,
    );
    listing(
        banners + "\nPHASES  (functions over the cognitive floor whose body labels its phases)\n"@,
        phase_rows(r.files),
        top,
    )
}

/// The text of a report; `percentile` is the size percentile the settings ask for.
pub fn render(r: &CommentsReport, top: usize, cfg: &Comments, percentile: &str) -> (o: String)
    ensures
        o@ == rendered(r@, top as nat, *cfg, percentile@),
{
    let mut o = sums(r, cfg, percentile);
    o.append("BANNERS  (files cut into labelled sections; the largest is the split)\n");
    let rows = rows_of_banners(r);
    add_listing(&mut o, &rows, top);
    o.append("\nPHASES  (functions over the cognitive floor whose body labels its phases)\n");
    let rows = rows_of_phases(r);
    add_listing(&mut o, &rows, top);
    o
}

} // verus!
