//! The report as text.

use vstd::prelude::*;

use crate::declared::features::{Feature, FeatureView};
use crate::declared::knobs::{KnobView, UnreadKnob};
use crate::declared::orphans::{Misplaced, MisplacedView, Orphan, OrphanView};
use crate::declared::report::{DeclaredReport, FileView, ReportView};
use crate::declared::words::{plural, plural_of};
use crate::text::{add_lines, decimal, digits, join, joined, lines_after, plus, put, Chars};

verus! {

/// The names of orphans.
pub open spec fn orphan_names(list: Seq<OrphanView>) -> Seq<Chars> {
    Seq::new(list.len(), |k: int| list[k].name)
}

/// The counts in one line; `percent` is the share of orphans with one decimal.
pub open spec fn totals_of(r: ReportView, percent: Chars) -> Chars {
    let t = r.totals;
    let names = orphan_names(r.orphans);
    digits(t.orphans as nat) + " of "@ + digits(t.deps as nat) + " declared deps orphaned ("@ + percent + "%"@ + (
    if names.len() == 0 {
        Seq::empty()
    } else {
        ": "@ + joined(names, ", "@)
    }) + ") in "@ + plural_of(t.manifests as nat, "manifest"@, "manifests"@) + "; "@ + digits(t.dead_features as nat) + " of "@
        + digits(t.features as nat) + " features dead, "@ + digits(t.noop_features as nat) + " no-op; "@ + digits(
        t.unread_knobs as nat,
    ) + " of "@ + digits(t.knobs as nat) + " config knobs in "@ + plural_of(
        t.config_structs as nat,
        "struct"@,
        "structs"@,
    ) + " unread"@ + (if t.test_only_knobs > 0 {
        ", "@ + digits(t.test_only_knobs as nat) + " read only by tests"@
    } else {
        Seq::empty()
    })
}

fn none() -> (o: String)
    ensures
        o@ == Seq::<char>::empty(),
{
    let o = String::new();
    assert(o@ =~= Seq::<char>::empty());
    o
}

fn name_clause(list: &Vec<Orphan>) -> (o: String)
    ensures
        o@ == (if list.deep_view().len() == 0 {
            Seq::empty()
        } else {
            ": "@ + joined(orphan_names(list.deep_view()), ", "@)
        }),
{
    let ghost view = list.deep_view();
    assert(view.len() == list.len());
    if list.len() == 0 {
        return none();
    }
    let mut names: Vec<String> = Vec::new();
    let mut k: usize = 0;
    while k < list.len()
        invariant
            k <= list.len(),
            view == list.deep_view(),
            names.len() == k,
            forall|j: int| 0 <= j < k ==> (#[trigger] names@[j])@ == view[j].name,
        decreases list.len() - k,
    {
        assert(view[k as int] == list@[k as int].deep_view());
        names.push(list[k].name.clone());
        k = k + 1;
    }
    assert(names.deep_view() =~= orphan_names(view));
    plus(": ".to_owned(), join(&names, ", ").as_str())
}

/// The counts in one line; `percent` is the share of orphans with one decimal.
pub fn totals_line(r: &DeclaredReport, percent: &str) -> (o: String)
    ensures
        o@ == totals_of(r.deep_view(), percent@),
{
    let t = &r.totals;
    let tests = if t.test_only_knobs > 0 {
        plus(plus(", ".to_owned(), decimal(t.test_only_knobs).as_str()), " read only by tests")
    } else {
        none()
    };
    let mut o = decimal(t.orphans);
    o.append(" of ");
    o.append(decimal(t.deps).as_str());
    o.append(" declared deps orphaned (");
    o.append(percent);
    o.append("%");
    o.append(name_clause(&r.orphans).as_str());
    o.append(") in ");
    o.append(plural(t.manifests, "manifest", "manifests").as_str());
    o.append("; ");
    o.append(decimal(t.dead_features).as_str());
    o.append(" of ");
    o.append(decimal(t.features).as_str());
    o.append(" features dead, ");
    o.append(decimal(t.noop_features).as_str());
    o.append(" no-op; ");
    o.append(decimal(t.unread_knobs).as_str());
    o.append(" of ");
    o.append(decimal(t.knobs).as_str());
    o.append(" config knobs in ");
    o.append(plural(t.config_structs, "struct", "structs").as_str());
    o.append(" unread");
    o.append(tests.as_str());
    o
}

// ---------- sections ----------

/// The first `top` of a list.
pub open spec fn at_most(list: Seq<Chars>, top: usize) -> Seq<Chars> {
    list.take(if top < list.len() {
        top as int
    } else {
        list.len() as int
    })
}

/// The lines of the orphans that print: not the optional ones.
pub open spec fn printed_lines(list: Seq<OrphanView>) -> Seq<Chars>
    decreases list.len(),
{
    if list.len() == 0 {
        Seq::empty()
    } else if list.last().optional {
        printed_lines(list.drop_last())
    } else {
        printed_lines(list.drop_last()).push(list.last().line_text)
    }
}

/// The lines of misplaced dependencies.
pub open spec fn misplaced_lines(list: Seq<MisplacedView>) -> Seq<Chars> {
    Seq::new(list.len(), |k: int| list[k].line_text)
}

/// The lines of features.
pub open spec fn feature_lines(list: Seq<FeatureView>) -> Seq<Chars> {
    Seq::new(list.len(), |k: int| list[k].line_text)
}

/// The lines of knobs.
pub open spec fn knob_lines(list: Seq<KnobView>) -> Seq<Chars> {
    Seq::new(list.len(), |k: int| list[k].line_text)
}

/// `acc` with an indented line for each of the first `top` of a list.
pub open spec fn indented(acc: Chars, list: Seq<Chars>, top: usize) -> Chars {
    lines_after(acc, at_most(list, top), "  "@, 0)
}

/// `acc` with a headed list, where the list has something.
pub open spec fn headed(acc: Chars, heading: Chars, list: Seq<Chars>, top: usize) -> Chars {
    if list.len() == 0 {
        acc
    } else {
        indented(acc + heading, list, top)
    }
}

/// The body of the section.
pub open spec fn section_of(r: ReportView, top: usize, percent: Chars) -> Chars {
    let some = r.totals.manifests > 0 || r.totals.config_structs > 0;
    let orphans = printed_lines(r.orphans);
    let dead = feature_lines(r.dead_features);
    let noop = feature_lines(r.noop_features);
    let a = if some {
        Seq::<char>::empty() + "  "@ + totals_of(r, percent) + "\n"@
    } else {
        Seq::<char>::empty() + "  none\n"@
    };
    let b = lines_after(a, r.notes, "  "@, 0);
    let c = headed(b, "  ORPHANED DEPS  (declared, referenced by no file in the manifest's scope)\n"@, orphans, top);
    let d = headed(c, "  MISPLACED  (only test code references them)\n"@, misplaced_lines(r.misplaced), top);
    let e = if dead.len() == 0 && noop.len() == 0 {
        d
    } else {
        indented(
            indented(d + "  DEAD FEATURES  (no cfg consumer; gating only orphaned deps)\n"@, dead, top),
            noop,
            top,
        )
    };
    let f = headed(
        e,
        "  UNREAD KNOBS  (accepted by a Deserialize struct, read by no code)\n"@,
        knob_lines(r.unread_knobs),
        top,
    );
    if some && orphans.len() == 0 && r.misplaced.len() == 0 && r.dead_features.len() == 0 && r.noop_features.len() == 0
        && r.unread_knobs.len() == 0 {
        f + "  none\n"@
    } else {
        f
    }
}

fn take_lines(list: &Vec<String>, top: usize) -> (out: Vec<String>)
    ensures
        out.deep_view() == at_most(list.deep_view(), top),
{
    let ghost view = list.deep_view();
    let mut out: Vec<String> = Vec::new();
    let mut k: usize = 0;
    assert(out.deep_view() =~= view.take(0));
    while k < list.len() && k < top
        invariant
            k <= list.len(),
            k <= top,
            view == list.deep_view(),
            out.deep_view() == view.take(k as int),
        decreases list.len() - k,
    {
        assert(view[k as int] == list@[k as int]@);
        put(&mut out, list[k].clone());
        assert(view.take(k + 1) =~= view.take(k as int).push(view[k as int]));
        k = k + 1;
    }
    assert(view.len() == list.len());
    out
}

fn indent(o: &mut String, list: &Vec<String>, top: usize)
    ensures
        final(o)@ == indented(old(o)@, list.deep_view(), top),
{
    let shown = take_lines(list, top);
    add_lines(o, &shown, "  ");
}

fn head_list(o: &mut String, heading: &str, list: &Vec<String>, top: usize)
    ensures
        final(o)@ == headed(old(o)@, heading@, list.deep_view(), top),
{
    assert(list.len() == list.deep_view().len());
    if list.len() > 0 {
        o.append(heading);
        indent(o, list, top);
    }
}

fn lines_of_orphans(list: &Vec<Orphan>) -> (out: Vec<String>)
    ensures
        out.deep_view() == printed_lines(list.deep_view()),
{
    let ghost view = list.deep_view();
    let mut out: Vec<String> = Vec::new();
    assert(out.deep_view() =~= Seq::<Chars>::empty());
    assert(view.take(0) =~= Seq::<OrphanView>::empty());
    let mut k: usize = 0;
    while k < list.len()
        invariant
            k <= list.len(),
            view == list.deep_view(),
            out.deep_view() == printed_lines(view.take(k as int)),
        decreases list.len() - k,
    {
        assert(view.take(k + 1).drop_last() =~= view.take(k as int));
        assert(view[k as int] == list@[k as int].deep_view());
        if !list[k].optional {
            put(&mut out, list[k].line_text.clone());
        }
        k = k + 1;
    }
    assert(view.take(view.len() as int) =~= view);
    out
}

fn lines_of_misplaced(list: &Vec<Misplaced>) -> (out: Vec<String>)
    ensures
        out.deep_view() == misplaced_lines(list.deep_view()),
{
    let ghost view = list.deep_view();
    let mut out: Vec<String> = Vec::new();
    let mut k: usize = 0;
    while k < list.len()
        invariant
            k <= list.len(),
            view == list.deep_view(),
            out.len() == k,
            forall|j: int| 0 <= j < k ==> (#[trigger] out@[j])@ == view[j].line_text,
        decreases list.len() - k,
    {
        assert(view[k as int] == list@[k as int].deep_view());
        out.push(list[k].line_text.clone());
        k = k + 1;
    }
    assert(out.deep_view() =~= misplaced_lines(view));
    out
}

fn lines_of_features(list: &Vec<Feature>) -> (out: Vec<String>)
    ensures
        out.deep_view() == feature_lines(list.deep_view()),
{
    let ghost view = list.deep_view();
    let mut out: Vec<String> = Vec::new();
    let mut k: usize = 0;
    while k < list.len()
        invariant
            k <= list.len(),
            view == list.deep_view(),
            out.len() == k,
            forall|j: int| 0 <= j < k ==> (#[trigger] out@[j])@ == view[j].line_text,
        decreases list.len() - k,
    {
        assert(view[k as int] == list@[k as int].deep_view());
        out.push(list[k].line_text.clone());
        k = k + 1;
    }
    assert(out.deep_view() =~= feature_lines(view));
    out
}

fn lines_of_knobs(list: &Vec<UnreadKnob>) -> (out: Vec<String>)
    ensures
        out.deep_view() == knob_lines(list.deep_view()),
{
    let ghost view = list.deep_view();
    let mut out: Vec<String> = Vec::new();
    let mut k: usize = 0;
    while k < list.len()
        invariant
            k <= list.len(),
            view == list.deep_view(),
            out.len() == k,
            forall|j: int| 0 <= j < k ==> (#[trigger] out@[j])@ == view[j].line_text,
        decreases list.len() - k,
    {
        assert(view[k as int] == list@[k as int].deep_view());
        out.push(list[k].line_text.clone());
        k = k + 1;
    }
    assert(out.deep_view() =~= knob_lines(view));
    out
}

/// The DECLARED section body as a scan prints it (after the heading).
#[verifier::spinoff_prover]
#[verifier::rlimit(60)]
pub fn render_section(r: &DeclaredReport, top: usize, percent: &str) -> (o: String)
    ensures
        o@ == section_of(r.deep_view(), top, percent@),
{
    let some = r.totals.manifests > 0 || r.totals.config_structs > 0;
    let orphans = lines_of_orphans(&r.orphans);
    let misplaced = lines_of_misplaced(&r.misplaced);
    let dead = lines_of_features(&r.dead_features);
    let noop = lines_of_features(&r.noop_features);
    let knobs = lines_of_knobs(&r.unread_knobs);
    assert(orphans.len() == orphans.deep_view().len());
    assert(misplaced.len() == misplaced.deep_view().len());
    assert(dead.len() == dead.deep_view().len());
    assert(noop.len() == noop.deep_view().len());
    assert(knobs.len() == knobs.deep_view().len());
    let mut o = none();
    if some {
        o.append("  ");
        o.append(totals_line(r, percent).as_str());
        o.append("\n");
    } else {
        o.append("  none\n");
    }
    add_lines(&mut o, &r.notes, "  ");
    head_list(&mut o, "  ORPHANED DEPS  (declared, referenced by no file in the manifest's scope)\n", &orphans, top);
    head_list(&mut o, "  MISPLACED  (only test code references them)\n", &misplaced, top);
    if dead.len() > 0 || noop.len() > 0 {
        o.append("  DEAD FEATURES  (no cfg consumer; gating only orphaned deps)\n");
        indent(&mut o, &dead, top);
        indent(&mut o, &noop, top);
    }
    head_list(&mut o, "  UNREAD KNOBS  (accepted by a Deserialize struct, read by no code)\n", &knobs, top);
    if some && orphans.len() == 0 && misplaced.len() == 0 && dead.len() == 0 && noop.len() == 0 && knobs.len() == 0 {
        o.append("  none\n");
    }
    o
}

/// A file with its reasons.
pub open spec fn file_block(acc: Chars, path: Chars, f: FileView) -> Chars {
    lines_after(
        acc + "  "@ + path + " ("@ + plural_of(f.unread_knobs.len(), "knob"@, "knobs"@) + "):\n"@,
        f.reasons,
        "    - "@,
        0,
    )
}

/// The first files with their reasons.
pub open spec fn file_blocks(acc: Chars, files: Seq<(Chars, FileView)>, n: int) -> Chars
    decreases n,
{
    if n <= 0 {
        acc
    } else {
        file_block(file_blocks(acc, files, n - 1), files[n - 1].0, files[n - 1].1)
    }
}

/// The section, then the files with unread knobs and their reasons.
pub open spec fn rendered(r: ReportView, top: usize, percent: Chars) -> Chars {
    let start = Seq::<char>::empty()
        + "DECLARED  (dependencies no file imports; feature flags nothing checks; config knobs no code reads)\n"@ + section_of(
        r,
        top,
        percent,
    );
    if r.files.len() == 0 {
        start
    } else {
        file_blocks(
            start + "\nfiles with unread config knobs:\n"@,
            r.files,
            if top < r.files.len() {
                top as int
            } else {
                r.files.len() as int
            },
        )
    }
}

/// The section, then the files with unread knobs and their reasons.
pub fn render(r: &DeclaredReport, top: usize, percent: &str) -> (o: String)
    ensures
        o@ == rendered(r.deep_view(), top, percent@),
{
    let ghost fv = r.files.deep_view();
    let mut o = none();
    o.append("DECLARED  (dependencies no file imports; feature flags nothing checks; config knobs no code reads)\n");
    o.append(render_section(r, top, percent).as_str());
    assert(fv.len() == r.files.len());
    if r.files.len() > 0 {
        o.append("\nfiles with unread config knobs:\n");
        let ghost start = o@;
        let mut k: usize = 0;
        while k < r.files.len() && k < top
            invariant
                k <= r.files.len(),
                k <= top,
                fv == r.files.deep_view(),
                o@ == file_blocks(start, fv, k as int),
            decreases r.files.len() - k,
        {
            assert(fv[k as int] == r.files@[k as int].deep_view());
            let f = &r.files[k].1;
            assert(f.unread_knobs.len() == f.unread_knobs.deep_view().len());
            o.append("  ");
            o.append(r.files[k].0.as_str());
            o.append(" (");
            o.append(plural(f.unread_knobs.len(), "knob", "knobs").as_str());
            o.append("):\n");
            add_lines(&mut o, &f.reasons, "    - ");
            k = k + 1;
        }
    }
    o
}

} // verus!
