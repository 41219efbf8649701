//! A family as text.

use vstd::prelude::*;

use crate::clones::compare::{ChangeView, Comparison, ComparisonView, Excerpt, ExcerptView};
use crate::clones::families::{CloneFamily, FamilyView};
use crate::text::{add_lines, decimal, digits, lines, lines_after, lines_of, trim, trimmed, Chars};

verus! {

/// The name of a symbol, where there is one.
pub open spec fn symbol_text(s: Option<Chars>) -> Chars {
    match s {
        Some(x) => x,
        None => Seq::empty(),
    }
}

/// Where an excerpt stands.
pub open spec fn place_of(e: ExcerptView) -> Chars {
    e.location.file + ":"@ + digits(e.location.start_line as nat) + "-"@ + digits(e.location.end_line as nat) + (if e.truncated {
        " (excerpt)"@
    } else {
        ""@
    })
}

/// The lines of a text from `k` on, each without the blanks round it.
pub open spec fn code_after(acc: Chars, list: Seq<Chars>, lead: Chars, k: int) -> Chars
    decreases list.len() - k,
{
    if k < 0 || k >= list.len() {
        acc
    } else {
        code_after(acc + lead + trimmed(list[k]) + "\n"@, list, lead, k + 1)
    }
}

/// A shared block.
pub open spec fn shared_text(acc: Chars, e: ExcerptView) -> Chars {
    code_after(acc + "      shared example "@ + place_of(e) + "\n"@, lines_of(e.code), "        "@, 0)
}

/// One side of a difference.
pub open spec fn side_text(acc: Chars, mark: Chars, e: Option<ExcerptView>) -> Chars {
    match e {
        Some(x) => code_after(
            acc + "      "@ + mark + " "@ + place_of(x) + "\n"@,
            lines_of(x.code),
            "        "@ + mark + " "@,
            0,
        ),
        None => acc,
    }
}

/// The differences from `k` on.
pub open spec fn differences_text(acc: Chars, list: Seq<ChangeView>, k: int) -> Chars
    decreases list.len() - k,
{
    if k < 0 || k >= list.len() {
        acc
    } else {
        differences_text(side_text(side_text(acc, "-"@, list[k].a), "+"@, list[k].b), list, k + 1)
    }
}

/// A comparison.
pub open spec fn comparison_text(acc: Chars, c: ComparisonView) -> Chars {
    let head = acc + "    compare "@ + symbol_text(c.a.symbol) + " <-> "@ + symbol_text(c.b.symbol)
        + " (source differences; check behavior before extracting)\n"@;
    if c.skipped {
        head + "      comparison omitted: scope exceeds 500 lines\n"@
    } else {
        let shared = if c.shared.len() > 0 {
            match c.shared[0].a {
                Some(e) => shared_text(head, e),
                None => head,
            }
        } else {
            head
        };
        let same = if c.differences.len() == 0 {
            shared + "      identical after trimming indentation and blank lines\n"@
        } else {
            shared
        };
        let all = differences_text(same, c.differences, 0);
        if c.differences_omitted > 0 {
            all + "      +"@ + digits(c.differences_omitted) + " more difference blocks\n"@
        } else {
            all
        }
    }
}

/// A family: its members, and the first of its comparisons.
pub open spec fn family_text(f: FamilyView, members: Seq<Chars>) -> Chars {
    let head = lines_after(
        "  "@ + digits(f.members.len()) + " members, "@ + digits(f.pair_count) + " matching runs, largest "@ + digits(
            f.max_shared_tokens as nat,
        ) + " tokens\n"@,
        members,
        "    "@,
        0,
    );
    let first = if f.comparisons.len() > 0 {
        comparison_text(head, f.comparisons[0])
    } else {
        head
    };
    let more = if f.comparisons.len() > 1 {
        first + "    +"@ + digits((f.comparisons.len() - 1) as nat) + " comparisons in JSON\n"@
    } else {
        first
    };
    if f.comparisons_omitted > 0 {
        more + "    +"@ + digits(f.comparisons_omitted) + " comparisons omitted by the analysis limit\n"@
    } else {
        more
    }
}

fn add_symbol(o: &mut String, s: &Option<String>)
    ensures
        final(o)@ == old(o)@ + symbol_text(s.deep_view()),
{
    let ghost was = o@;
    match s {
        Some(x) => {
            o.append(x.as_str());
        },
        None => {
            assert(was + Seq::<char>::empty() =~= was);
        },
    }
}

fn place(e: &Excerpt) -> (o: String)
    ensures
        o@ == place_of(e.deep_view()),
{
    let mut o = e.location.file.as_str().to_owned();
    o.append(":");
    o.append(decimal(e.location.start_line).as_str());
    o.append("-");
    o.append(decimal(e.location.end_line).as_str());
    o.append(if e.truncated {
        " (excerpt)"
    } else {
        ""
    });
    o
}

fn add_code(o: &mut String, code: &str, lead: &str)
    ensures
        final(o)@ == code_after(old(o)@, lines_of(code@), lead@, 0),
{
    let list = lines(code);
    let ghost view = list.deep_view();
    let ghost whole = code_after(o@, view, lead@, 0);
    let mut k: usize = 0;
    while k < list.len()
        invariant
            k <= list.len(),
            view == list.deep_view(),
            whole == code_after(o@, view, lead@, k as int),
        decreases list.len() - k,
    {
        assert(view[k as int] == list@[k as int]@);
        o.append(lead);
        o.append(trim(list[k].as_str()).as_str());
        o.append("\n");
        k = k + 1;
    }
}

fn add_side(o: &mut String, mark: &str, e: &Option<Excerpt>)
    ensures
        final(o)@ == side_text(old(o)@, mark@, e.deep_view()),
{
    if let Some(x) = e {
        o.append("      ");
        o.append(mark);
        o.append(" ");
        o.append(place(x).as_str());
        o.append("\n");
        let mut lead = "        ".to_owned();
        lead.append(mark);
        lead.append(" ");
        add_code(o, x.code.as_str(), lead.as_str());
    }
}

fn add_comparison(o: &mut String, c: &Comparison)
    ensures
        final(o)@ == comparison_text(old(o)@, c.deep_view()),
{
    let ghost cv = c.deep_view();
    o.append("    compare ");
    add_symbol(o, &c.a.symbol);
    o.append(" <-> ");
    add_symbol(o, &c.b.symbol);
    o.append(" (source differences; check behavior before extracting)\n");
    if c.skipped {
        o.append("      comparison omitted: scope exceeds 500 lines\n");
        return;
    }
    assert(c.shared.len() == cv.shared.len());
    assert(c.differences.len() == cv.differences.len());
    if c.shared.len() > 0 {
        assert(cv.shared[0] == c.shared@[0].deep_view());
        if let Some(e) = &c.shared[0].a {
            o.append("      shared example ");
            o.append(place(e).as_str());
            o.append("\n");
            add_code(o, e.code.as_str(), "        ");
        }
    }
    if c.differences.len() == 0 {
        o.append("      identical after trimming indentation and blank lines\n");
    }
    let ghost whole = differences_text(o@, cv.differences, 0);
    let mut k: usize = 0;
    while k < c.differences.len()
        invariant
            k <= c.differences.len(),
            cv == c.deep_view(),
            whole == differences_text(o@, cv.differences, k as int),
        decreases c.differences.len() - k,
    {
        assert(c.differences.deep_view()[k as int] == c.differences@[k as int].deep_view());
        add_side(o, "-", &c.differences[k].a);
        add_side(o, "+", &c.differences[k].b);
        k = k + 1;
    }
    if c.differences_omitted > 0 {
        o.append("      +");
        o.append(decimal(c.differences_omitted).as_str());
        o.append(" more difference blocks\n");
    }
}

/// A family as text; `members` are the lines of its members.
pub fn render_family(f: &CloneFamily, members: &Vec<String>) -> (o: String)
    ensures
        o@ == family_text(f.deep_view(), members.deep_view()),
{
    let ghost fv = f.deep_view();
    assert(f.members.len() == fv.members.len());
    assert(f.comparisons.len() == fv.comparisons.len());
    let mut o = "  ".to_owned();
    o.append(decimal(f.members.len()).as_str());
    o.append(" members, ");
    o.append(decimal(f.pair_count).as_str());
    o.append(" matching runs, largest ");
    o.append(decimal(f.max_shared_tokens).as_str());
    o.append(" tokens\n");
    add_lines(&mut o, members, "    ");
    if f.comparisons.len() > 0 {
        assert(fv.comparisons[0] == f.comparisons@[0].deep_view());
        add_comparison(&mut o, &f.comparisons[0]);
    }
    if f.comparisons.len() > 1 {
        o.append("    +");
        o.append(decimal(f.comparisons.len() - 1).as_str());
        o.append(" comparisons in JSON\n");
    }
    if f.comparisons_omitted > 0 {
        o.append("    +");
        o.append(decimal(f.comparisons_omitted).as_str());
        o.append(" comparisons omitted by the analysis limit\n");
    }
    o
}

} // verus!
