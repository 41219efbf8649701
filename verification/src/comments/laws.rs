//! What comments mark, stated over nodes and texts.

use vstd::prelude::*;

use crate::comments::banners::{
    merged, section_at, top_comment, top_comments, top_items, units_between, BoundaryView, ItemView, SectionView, TopView,
};
use crate::comments::kinds::{comment_text, doc_comment, unmarked, wordy_text};
use crate::comments::lines::line_at;
use crate::comments::phases::{
    binds_of, bound_names, found_in, once_each, pattern_names, phase_comments, read_names, reads_of, shared_of,
    spans_of, takers, takes, unit_phases, Mention, PhaseView, UnitView,
};
use crate::comments::report::{bytes_of, estimates_at, longest, looked_at, phased, qualified, shown_name, SideView};
use crate::comments::titles::{labels_phase, ruleless, ruleless_end, ruleless_start, skipped, title_by};
use crate::config::{Banners, Comments};
use crate::discover::{base_of, SourceFile};
use crate::lang::Language;
use crate::regions::TestRegion;
use crate::text::{starts, trimmed, white, without_leading, Chars};
use crate::tree::{child_of, tree_ok, Nodes};
use crate::units::FunctionMetrics;

verus! {

proof fn binder_kinds_differ()
    ensures
        "parameters"@.len() == 10,
        "parameters"@[0] == 'p',
        "let_declaration"@.len() == 15,
        "for_expression"@.len() == 14,
        "assignment_expression"@.len() == 21,
        "assignment"@.len() == 10,
        "assignment"@[0] == 'a',
        "for_statement"@.len() == 13,
        "formal_parameters"@.len() == 17,
        "variable_declarator"@.len() == 19,
        "for_in_statement"@.len() == 16,
{
    reveal_strlit("parameters");
    reveal_strlit("let_declaration");
    reveal_strlit("for_expression");
    reveal_strlit("assignment_expression");
    reveal_strlit("assignment");
    reveal_strlit("for_statement");
    reveal_strlit("formal_parameters");
    reveal_strlit("variable_declarator");
    reveal_strlit("for_in_statement");
}

// ---------- comments and items at the top of a file ----------

/// A comment of a language.
pub open spec fn is_comment(lang: Language, kind: Chars) -> bool {
    if lang == Language::Rust {
        kind == "line_comment"@ || kind == "block_comment"@
    } else {
        kind == "comment"@
    }
}

/// An import of a language.
pub open spec fn is_import(lang: Language, kind: Chars) -> bool {
    if lang == Language::Rust {
        kind == "use_declaration"@ || kind == "extern_crate_declaration"@
    } else if lang == Language::Python {
        kind == "import_statement"@ || kind == "import_from_statement"@ || kind == "future_import_statement"@
    } else {
        kind == "import_statement"@
    }
}

/// Every comment at the top of a file that documents nothing is read, on its lines.
pub proof fn every_top_comment_is_read(t: Nodes, kids: Seq<usize>, lang: Language, src: Seq<u8>, b: Banners, k: int)
    requires
        0 <= k < kids.len(),
        is_comment(lang, t[kids[k] as int].kind),
        !doc_comment(t, kids[k] as int),
    ensures
        exists|x: int| {
            &&& 0 <= x < top_comments(t, kids, lang, src, b).len()
            &&& (#[trigger] top_comments(t, kids, lang, src, b)[x]).text == comment_text(t[kids[k] as int].text)
            &&& top_comments(t, kids, lang, src, b)[x].start == line_at(src, t[kids[k] as int].start as int)
        },
    decreases kids.len(),
{
    let rest = top_comments(t, kids.drop_last(), lang, src, b);
    let all = top_comments(t, kids, lang, src, b);
    if k == kids.len() - 1 {
        assert(all[rest.len() as int] == top_comment(t, kids[k] as int, src, b));
    } else {
        every_top_comment_is_read(t, kids.drop_last(), lang, src, b, k);
        let x = choose|x: int| {
            &&& 0 <= x < rest.len()
            &&& (#[trigger] rest[x]).text == comment_text(t[kids[k] as int].text)
            &&& rest[x].start == line_at(src, t[kids[k] as int].start as int)
        };
        assert(all[x] == rest[x]);
    }
}

/// Everything else at the top that has a name in the grammar is an item, and an import where it is one.
pub proof fn every_top_item_is_read(t: Nodes, kids: Seq<usize>, lang: Language, src: Seq<u8>, k: int)
    requires
        0 <= k < kids.len(),
        t[kids[k] as int].named,
        !is_comment(lang, t[kids[k] as int].kind),
    ensures
        top_items(t, kids, lang, src).contains(
            (ItemView { line: line_at(src, t[kids[k] as int].start as int), import: is_import(lang, t[kids[k] as int].kind) }),
        ),
    decreases kids.len(),
{
    let rest = top_items(t, kids.drop_last(), lang, src);
    let all = top_items(t, kids, lang, src);
    let want = ItemView { line: line_at(src, t[kids[k] as int].start as int), import: is_import(lang, t[kids[k] as int].kind) };
    if k == kids.len() - 1 {
        assert(all[rest.len() as int] == want);
    } else {
        every_top_item_is_read(t, kids.drop_last(), lang, src, k);
        let x = choose|x: int| 0 <= x < rest.len() && rest[x] == want;
        assert(all[x] == rest[x]);
    }
}

/// A comment without its marks: what follows `//` and further slashes, or `#`, or stands between `/*`
/// and `*/`.
pub proof fn the_marks_of_a_comment_are_dropped(s: Chars, rest: Chars)
    requires
        trimmed(s) == s,
    ensures
        s == "//"@ + rest && !(rest.len() > 0 && rest[0] == '/') ==> unmarked(s) == rest,
        s == "#"@ + rest ==> unmarked(s) == rest,
        s == "/*"@ + rest + "*/"@ ==> unmarked(s) == rest,
{
    reveal_strlit("//");
    reveal_strlit("#");
    reveal_strlit("/*");
    reveal_strlit("*/");
    reveal_strlit("/");
    if s == "//"@ + rest && !(rest.len() > 0 && rest[0] == '/') {
        assert(s[1] == '/');
        if starts(s, "/*"@) {
            assert(s.subrange(0, 2)[1] == '*');
        }
        assert(s.subrange(0, 2) =~= "//"@);
        assert(s.skip(2) =~= rest);
        if starts(rest, "/"@) {
            assert(rest.subrange(0, 1)[0] == '/');
        }
        assert(without_leading(rest, "/"@) == rest);
    }
    if s == "#"@ + rest {
        assert(s[0] == '#');
        if starts(s, "/*"@) {
            assert(s.subrange(0, 2)[0] == '/');
        }
        if starts(s, "//"@) {
            assert(s.subrange(0, 2)[0] == '/');
        }
        assert(s.subrange(0, 1) =~= "#"@);
        assert(s.skip(1) =~= rest);
    }
    if s == "/*"@ + rest + "*/"@ {
        assert(s.subrange(0, 2) =~= "/*"@);
        let r = s.skip(2);
        assert(r =~= rest + "*/"@);
        assert(r.subrange(r.len() - 2, r.len() as int) =~= "*/"@);
        assert(r.take(r.len() - 2) =~= rest);
    }
}

// ---------- titles ----------

proof fn ruleless_start_is_bare(s: Chars, set: Chars)
    ensures
        ({
            let r = ruleless_start(s, set);
            &&& r.len() > 0 ==> !white(r[0]) && !set.contains(r[0])
            &&& r.len() <= s.len()
            &&& r == s.skip(s.len() - r.len())
            &&& forall|i: int| 0 <= i < s.len() - r.len() ==> white(#[trigger] s[i]) || set.contains(s[i])
        }),
    decreases s.len(),
{
    if s.len() > 0 && (white(s[0]) || set.contains(s[0])) {
        let t = s.skip(1);
        ruleless_start_is_bare(t, set);
        let r = ruleless_start(t, set);
        assert(s.skip(s.len() - r.len()) =~= t.skip(t.len() - r.len()));
        assert forall|i: int| 0 <= i < s.len() - r.len() implies white(#[trigger] s[i]) || set.contains(s[i]) by {
            if i > 0 {
                assert(t[i - 1] == s[i]);
            }
        }
    } else {
        assert(s.skip(0) =~= s);
    }
}

proof fn ruleless_end_is_bare(s: Chars, set: Chars)
    ensures
        ({
            let r = ruleless_end(s, set);
            &&& r.len() > 0 ==> !white(r.last()) && !set.contains(r.last())
            &&& r.len() <= s.len()
            &&& r == s.take(r.len() as int)
            &&& forall|i: int| r.len() <= i < s.len() ==> white(#[trigger] s[i]) || set.contains(s[i])
        }),
    decreases s.len(),
{
    if s.len() > 0 && (white(s.last()) || set.contains(s.last())) {
        let t = s.drop_last();
        ruleless_end_is_bare(t, set);
        let r = ruleless_end(t, set);
        assert(s.take(r.len() as int) =~= t.take(r.len() as int));
        assert forall|i: int| r.len() <= i < s.len() implies white(#[trigger] s[i]) || set.contains(s[i]) by {
            if i < t.len() {
                assert(t[i] == s[i]);
            } else {
                assert(s[i] == s.last());
            }
        }
    } else {
        assert(s.take(s.len() as int) =~= s);
    }
}

/// A title is the caught text between its rules: it neither starts nor ends with a rule character or a
/// space, and nothing else was taken off.
pub proof fn a_title_stands_between_its_rules(s: Chars, set: Chars)
    ensures
        ({
            let r = ruleless(s, set);
            &&& r.len() > 0 ==> !white(r[0]) && !set.contains(r[0]) && !white(r.last()) && !set.contains(r.last())
            &&& exists|a: int, b: int| {
                &&& 0 <= a <= b <= s.len()
                &&& r == #[trigger] s.subrange(a, b)
                &&& forall|i: int| 0 <= i < a || b <= i < s.len() ==> white(#[trigger] s[i]) || set.contains(s[i])
            }
        }),
{
    let m = ruleless_start(s, set);
    let r = ruleless(s, set);
    ruleless_start_is_bare(s, set);
    ruleless_end_is_bare(m, set);
    let a = s.len() - m.len();
    let b = a + r.len();
    assert(r =~= s.subrange(a, b));
    if r.len() > 0 {
        assert(r[0] == m[0]);
    }
    assert forall|i: int| 0 <= i < a || b <= i < s.len() implies white(#[trigger] s[i]) || set.contains(s[i]) by {
        if i >= b {
            assert(m[i - a] == s[i]);
        }
    }
}

/// A comment that starts with a marker of the settings is no banner, whatever its rules.
pub proof fn a_marker_makes_no_banner(b: Banners, text: Chars, rule: Option<Option<Chars>>, short: Option<Option<Chars>>, k: int)
    requires
        0 <= k < b.skip_markers.deep_view().len(),
        starts(text, b.skip_markers.deep_view()[k]),
        text.len() > 0 && !white(text[0]) && text[0] != '/' && text[0] != '*',
    ensures
        title_by(b, text, rule, short) is None,
{
    reveal_strlit("/*");
    let list = b.skip_markers.deep_view();
    assert("/*"@[0] == '/' && "/*"@[1] == '*' && "/*"@.len() == 2);
    assert(!"/*"@.contains(text[0]));
    assert(ruleless_start(text, "/*"@) == text);
    assert(crate::comments::titles::marked(ruleless_start(text, "/*"@), list[k]));
}

/// A rule is a banner, under the words that stand in it, or under none; words between short marks are
/// one only where there are words; anything else is none.
pub proof fn a_rule_is_a_banner(b: Banners, text: Chars, caught: Option<Chars>, short: Option<Option<Chars>>)
    requires
        !skipped(text, b.skip_markers.deep_view()),
    ensures
        (caught is None || !wordy_text(ruleless(caught->0, b.rule_chars@))) ==> title_by(b, text, Some(caught), short) == Some(None::<Chars>),
        caught matches Some(c) ==> (wordy_text(ruleless(c, b.rule_chars@)) && !skipped(ruleless(c, b.rule_chars@), b.skip_markers.deep_view())
            ==> title_by(b, text, Some(caught), short) == Some(Some(ruleless(c, b.rule_chars@))) && title_by(b, text, None, Some(caught)) == Some(
            Some(ruleless(c, b.rule_chars@)),
        )),
        title_by(b, text, None, None) is None,
        (caught is None || !wordy_text(ruleless(caught->0, b.rule_chars@))) ==> title_by(b, text, None, Some(caught)) is None,
{
}

// ---------- banners ----------

/// Comment `i` lies in a boundary.
pub open spec fn in_boundary(bds: Seq<BoundaryView>, i: int) -> bool {
    exists|k: int| 0 <= k < bds.len() && (#[trigger] bds[k]).first_index <= i <= bds[k].last_index
}

/// A boundary starts and ends with a banner comment.
pub open spec fn ends_in_banners(tops: Seq<TopView>, b: BoundaryView) -> bool {
    &&& b.first_index <= b.last_index < tops.len()
    &&& tops[b.first_index as int].banner is Some
    &&& tops[b.first_index as int].start == b.first_line
    &&& tops[b.last_index as int].banner is Some
    &&& tops[b.last_index as int].end == b.last_line
}

/// Every boundary starts and ends with a banner comment, on its lines.
pub proof fn a_boundary_is_of_banners(tops: Seq<TopView>, items: Seq<ItemView>, gap: usize, k: int)
    requires
        0 <= k < merged(tops, items, gap).len(),
    ensures
        ends_in_banners(tops, merged(tops, items, gap)[k]),
    decreases tops.len(),
{
    if tops.len() > 0 {
        let less = tops.drop_last();
        let rest = merged(less, items, gap);
        let all = merged(tops, items, gap);
        let n = tops.len() - 1;
        if k < rest.len() {
            a_boundary_is_of_banners(less, items, gap, k);
            let b = rest[k];
            assert(tops[b.first_index as int] == less[b.first_index as int]);
            assert(tops[b.last_index as int] == less[b.last_index as int]);
            if all[k] != b {
                assert(k == rest.len() - 1);
            }
        }
        assert(tops[n] == tops.last());
    }
}

/// Every banner comment lies in a boundary.
pub proof fn every_banner_is_in_a_boundary(tops: Seq<TopView>, items: Seq<ItemView>, gap: usize, i: int)
    requires
        0 <= i < tops.len(),
        tops[i].banner is Some,
    ensures
        in_boundary(merged(tops, items, gap), i),
    decreases tops.len(),
{
    let less = tops.drop_last();
    let rest = merged(less, items, gap);
    let all = merged(tops, items, gap);
    let n = tops.len() - 1;
    let last = rest.len() - 1;
    if rest.len() > 0 {
        a_boundary_is_of_banners(less, items, gap, last);
    }
    if i < n {
        every_banner_is_in_a_boundary(less, items, gap, i);
        let k = choose|k: int| 0 <= k < rest.len() && (#[trigger] rest[k]).first_index <= i <= rest[k].last_index;
        if all[k] != rest[k] {
            assert(k == last);
            assert(all[k].first_index == rest[k].first_index && all[k].last_index == n);
        }
        assert(all[k].first_index <= i <= all[k].last_index);
    } else {
        let x = all.len() - 1;
        assert(all[x].last_index == n);
        assert(all[x].first_index <= n);
    }
}

/// A banner that follows another within the gap, with no item between, belongs to it; one that does
/// not stands for itself, under its own title.
pub proof fn close_banners_are_one(tops: Seq<TopView>, items: Seq<ItemView>, gap: usize, c: TopView)
    requires
        c.banner is Some,
    ensures
        ({
            let rest = merged(tops, items, gap);
            let all = merged(tops.push(c), items, gap);
            let near = rest.len() > 0 && c.start <= rest.last().last_line + gap && forall|k: int|
                0 <= k < items.len() ==> !(rest.last().last_line < (#[trigger] items[k]).line < c.start);
            &&& near ==> all.len() == rest.len() && all.last().first_line == rest.last().first_line && all.last().last_line == c.end && (
            rest.last().title is Some ==> all.last().title == rest.last().title) && (rest.last().title is None ==> all.last().title
                == c.banner->0)
            &&& !near ==> all.len() == rest.len() + 1 && all.last().first_line == c.start && all.last().last_line == c.end && all.last().title
                == c.banner->0
        }),
{
    let more = tops.push(c);
    assert(more.drop_last() =~= tops);
    assert(more.last() == c);
}

/// What stands in a section is counted: the functions that are no tests and start in it.
pub proof fn a_section_counts_its_functions(funcs: Seq<FunctionMetrics>, after: nat, end: nat)
    ensures
        units_between(funcs, after, end) == funcs.filter(
            |f: FunctionMetrics| !f.in_test && after < f.start_line && f.start_line <= end,
        ).len(),
    decreases funcs.len(),
{
    reveal(Seq::filter);
    if funcs.len() > 0 {
        a_section_counts_its_functions(funcs.drop_last(), after, end);
    }
}

/// A section runs from its banner to the next one, or to the end of the file.
pub proof fn a_section_runs_to_the_next(bds: Seq<BoundaryView>, i: int, total: nat, funcs: Seq<FunctionMetrics>)
    requires
        0 <= i < bds.len(),
        bds[i].last_line + 1 <= usize::MAX,
        i + 1 < bds.len() ==> bds[i].last_line < bds[i + 1].first_line,
        i + 1 == bds.len() ==> bds[i].last_line <= total,
    ensures
        section_at(bds, i, total, funcs).start == bds[i].last_line + 1,
        section_at(bds, i, total, funcs).end == (if i + 1 < bds.len() { bds[i + 1].first_line - 1 } else { total as int }),
        section_at(bds, i, total, funcs).lines == section_at(bds, i, total, funcs).end + 1 - section_at(bds, i, total, funcs).start,
{
}

// ---------- phases ----------

/// A block of a language.
pub open spec fn is_block(lang: Language, kind: Chars) -> bool {
    if lang == Language::Rust {
        kind == "block"@ || kind == "match_block"@
    } else if lang == Language::Python {
        kind == "block"@
    } else {
        kind == "statement_block"@ || kind == "switch_body"@ || kind == "switch_case"@ || kind == "switch_default"@
    }
}

/// A function or a closure of a language.
pub open spec fn is_callable(lang: Language, kind: Chars) -> bool {
    if lang == Language::Rust {
        kind == "function_item"@ || kind == "closure_expression"@
    } else if lang == Language::Python {
        kind == "function_definition"@ || kind == "lambda"@
    } else {
        ||| kind == "function_declaration"@
        ||| kind == "function_expression"@
        ||| kind == "arrow_function"@
        ||| kind == "method_definition"@
        ||| kind == "generator_function"@
        ||| kind == "generator_function_declaration"@
    }
}

/// A comment of a block labels a phase.
pub open spec fn labels(t: Nodes, c: int, lang: Language, cfg: Comments) -> bool {
    &&& is_comment(lang, t[c].kind)
    &&& !doc_comment(t, c)
    &&& labels_phase(cfg, comment_text(t[c].text))
}

proof fn label_is_found(t: Nodes, n: int, depth: nat, k: int, j: int, lang: Language, cfg: Comments)
    requires
        tree_ok(t),
        0 <= n < t.len(),
        0 <= k <= j < t[n].children.len(),
        is_block(lang, t[n].kind),
        labels(t, t[n].children[j] as int, lang, cfg),
    ensures
        found_in(t, n, depth, k, lang, cfg).contains((t[n].children[j], n as usize)),
    decreases j - k,
{
    assert(crate::tree::node_ok(t, n));
    let c = t[n].children[k] as int;
    let rest = found_in(t, n, depth, k + 1, lang, cfg);
    let all = found_in(t, n, depth, k, lang, cfg);
    let want = (t[n].children[j], n as usize);
    assert(n < t[n].children[k] < t.len());
    if j == k {
        assert(all[0] == want);
    } else {
        label_is_found(t, n, depth, k + 1, j, lang, cfg);
        let x = choose|x: int| 0 <= x < rest.len() && rest[x] == want;
        assert(all[all.len() - rest.len() + x] == rest[x]);
    }
}

/// A comment in the body of a function that labels a phase is a phase of it.
pub proof fn a_label_in_a_body_is_a_phase(t: Nodes, unit: int, lang: Language, cfg: Comments, b: usize, j: int)
    requires
        tree_ok(t),
        0 <= unit < t.len(),
        child_of(t, unit, "body"@) == Some(b),
        b < t.len(),
        is_block(lang, t[b as int].kind),
        0 <= j < t[b as int].children.len(),
        labels(t, t[b as int].children[j] as int, lang, cfg),
    ensures
        phase_comments(t, unit, lang, cfg).contains((t[b as int].children[j], b)),
{
    label_is_found(t, b as int, 0, 0, j, lang, cfg);
}

proof fn inner_is_found(t: Nodes, n: int, depth: nat, k: int, j: int, lang: Language, cfg: Comments, f: (usize, usize))
    requires
        tree_ok(t),
        0 <= n < t.len(),
        0 <= k <= j < t[n].children.len(),
        ({
            let c = t[n].children[j] as int;
            &&& !is_comment(lang, t[c].kind)
            &&& is_block(lang, t[c].kind) ==> depth < cfg.phases.max_depth && found_in(t, c, depth + 1, 0, lang, cfg).contains(f)
            &&& !is_block(lang, t[c].kind) ==> !is_callable(lang, t[c].kind) && found_in(t, c, depth, 0, lang, cfg).contains(f)
        }),
    ensures
        found_in(t, n, depth, k, lang, cfg).contains(f),
    decreases j - k,
{
    assert(crate::tree::node_ok(t, n));
    let c = t[n].children[k] as int;
    assert(n < t[n].children[k] < t.len());
    let rest = found_in(t, n, depth, k + 1, lang, cfg);
    let all = found_in(t, n, depth, k, lang, cfg);
    if j == k {
        let inner = if is_block(lang, t[c].kind) {
            found_in(t, c, depth + 1, 0, lang, cfg)
        } else {
            found_in(t, c, depth, 0, lang, cfg)
        };
        assert(all == inner + rest);
        let x = choose|x: int| 0 <= x < inner.len() && inner[x] == f;
        assert(all[x] == f);
    } else {
        inner_is_found(t, n, depth, k + 1, j, lang, cfg, f);
        let x = choose|x: int| 0 <= x < rest.len() && rest[x] == f;
        assert(all[all.len() - rest.len() + x] == rest[x]);
    }
}

/// What is found in a block within a body, as deep as the settings go, is found in the body; and so is
/// what is found in any other part of it that is no function of its own.
pub proof fn a_phase_of_a_part_is_a_phase(t: Nodes, unit: int, lang: Language, cfg: Comments, b: usize, j: int, f: (usize, usize))
    requires
        tree_ok(t),
        0 <= unit < t.len(),
        child_of(t, unit, "body"@) == Some(b),
        b < t.len(),
        is_block(lang, t[b as int].kind),
        0 <= j < t[b as int].children.len(),
        ({
            let c = t[b as int].children[j] as int;
            &&& !is_comment(lang, t[c].kind)
            &&& is_block(lang, t[c].kind) ==> 0 < cfg.phases.max_depth && found_in(t, c, 1, 0, lang, cfg).contains(f)
            &&& !is_block(lang, t[c].kind) ==> !is_callable(lang, t[c].kind) && found_in(t, c, 0, 0, lang, cfg).contains(f)
        }),
    ensures
        phase_comments(t, unit, lang, cfg).contains(f),
{
    inner_is_found(t, b as int, 0, 0, j, lang, cfg, f);
}

/// Only a comment that stands in a block and labels a phase is one.
pub proof fn a_phase_is_a_label_in_a_block(t: Nodes, n: int, depth: nat, k: int, lang: Language, cfg: Comments, x: int)
    requires
        t.len() <= usize::MAX,
        0 <= x < found_in(t, n, depth, k, lang, cfg).len(),
    ensures
        ({
            let f = found_in(t, n, depth, k, lang, cfg)[x];
            &&& f.0 < t.len() && f.1 < t.len()
            &&& labels(t, f.0 as int, lang, cfg)
            &&& is_block(lang, t[f.1 as int].kind)
        }),
    decreases t.len() - n, t[n].children.len() - k,
{
    let all = found_in(t, n, depth, k, lang, cfg);
    let rest = found_in(t, n, depth, k + 1, lang, cfg);
    let c = t[n].children[k] as int;
    let d = all.len() - rest.len();
    if x >= d {
        assert(all[x] == rest[x - d]);
        a_phase_is_a_label_in_a_block(t, n, depth, k + 1, lang, cfg, x - d);
    } else if !crate::comments::kinds::comment_kind(lang, t[c].kind) {
        if crate::comments::kinds::block_kind(lang, t[c].kind) {
            assert(all[x] == found_in(t, c, depth + 1, 0, lang, cfg)[x]);
            a_phase_is_a_label_in_a_block(t, c, depth + 1, 0, lang, cfg, x);
        } else {
            assert(all[x] == found_in(t, c, depth, 0, lang, cfg)[x]);
            a_phase_is_a_label_in_a_block(t, c, depth, 0, lang, cfg, x);
        }
    }
}

// ---------- locals ----------

/// A node that binds names, and the field whose names it binds; an empty field stands for the whole.
pub open spec fn binds_by(lang: Language, kind: Chars, field: Chars) -> bool {
    if lang == Language::Rust {
        ||| kind == "parameters"@ && field.len() == 0
        ||| (kind == "let_declaration"@ || kind == "for_expression"@) && field == "pattern"@
        ||| kind == "assignment_expression"@ && field == "left"@
    } else if lang == Language::Python {
        ||| kind == "parameters"@ && field.len() == 0
        ||| (kind == "assignment"@ || kind == "for_statement"@) && field == "left"@
    } else {
        ||| kind == "formal_parameters"@ && field.len() == 0
        ||| kind == "variable_declarator"@ && field == "name"@
        ||| (kind == "for_in_statement"@ || kind == "assignment_expression"@) && field == "left"@
    }
}

/// A name of a language that may be bound: an identifier without a capital at its start.
pub open spec fn is_local(lang: Language, n: crate::tree::NodeView) -> bool {
    &&& n.kind == "identifier"@ || n.kind == "shorthand_property_identifier_pattern"@ || n.kind == "shorthand_property_identifier"@ && lang
        != Language::Rust && lang != Language::Python
    &&& !(n.text.len() > 0 && crate::text::uppercase(n.text[0]))
}

proof fn name_is_bound(t: Nodes, i: int, n: int, lang: Language, src: Seq<u8>, x: int)
    requires
        i <= x < n,
        is_local(lang, t[x]),
    ensures
        pattern_names(t, i, n, lang, src).contains((t[x].text, line_at(src, t[x].start as int) as usize)),
    decreases n - i,
{
    let rest = pattern_names(t, i, n - 1, lang, src);
    let all = pattern_names(t, i, n, lang, src);
    let want = (t[x].text, line_at(src, t[x].start as int) as usize);
    if x == n - 1 {
        assert(all[rest.len() as int] == want);
    } else {
        name_is_bound(t, i, n - 1, lang, src, x);
        let k = choose|k: int| 0 <= k < rest.len() && rest[k] == want;
        assert(all[k] == rest[k]);
    }
}

proof fn binder_is_heard(t: Nodes, i: int, n: int, lang: Language, src: Seq<u8>, j: int, p: usize, m: Mention)
    requires
        i <= j < n,
        crate::comments::phases::pattern_at(t, j, lang) == Some(p),
        pattern_names(t, p as int, t[p as int].after as int, lang, src).contains(m),
    ensures
        bound_names(t, i, n, lang, src).contains(m),
    decreases n - i,
{
    let rest = bound_names(t, i, n - 1, lang, src);
    let all = bound_names(t, i, n, lang, src);
    if j == n - 1 {
        let more = pattern_names(t, p as int, t[p as int].after as int, lang, src);
        let k = choose|k: int| 0 <= k < more.len() && more[k] == m;
        assert(all[rest.len() + k] == more[k]);
    } else {
        binder_is_heard(t, i, n - 1, lang, src, j, p, m);
        let k = choose|k: int| 0 <= k < rest.len() && rest[k] == m;
        assert(all[k] == rest[k]);
    }
}

/// Every name in what a parameter list, a declaration, a loop or an assignment of a function binds is
/// bound on its line.
pub proof fn a_binding_binds_its_names(t: Nodes, unit: int, lang: Language, src: Seq<u8>, j: int, field: Chars, p: usize, x: int)
    requires
        0 <= unit <= j < t[unit].after,
        j < t.len() <= usize::MAX,
        binds_by(lang, t[j].kind, field),
        if field.len() == 0 { p == j } else { child_of(t, j, field) == Some(p) },
        p <= x < t[p as int].after,
        is_local(lang, t[x]),
    ensures
        binds_of(t, unit, lang, src).contains((t[x].text, line_at(src, t[x].start as int) as usize)),
{
    binder_kinds_differ();
    reveal_strlit("");
    reveal_strlit("pattern");
    reveal_strlit("left");
    reveal_strlit("name");
    name_is_bound(t, p as int, t[p as int].after as int, lang, src, x);
    assert(crate::comments::phases::pattern_at(t, j, lang) == Some(p)) by {
        if field.len() == 0 {
            assert(""@ =~= field);
        }
    }
    binder_is_heard(t, unit, t[unit].after as int, lang, src, j, p, (t[x].text, line_at(src, t[x].start as int) as usize));
}

/// Every identifier of a function is read on its line.
pub proof fn an_identifier_is_read(t: Nodes, unit: int, lang: Language, src: Seq<u8>, x: int)
    requires
        unit <= x < t[unit].after,
        t[x].kind == "identifier"@ || t[x].kind == "shorthand_property_identifier"@ && lang != Language::Rust && lang != Language::Python,
    ensures
        reads_of(t, unit, lang, src).contains((t[x].text, line_at(src, t[x].start as int) as usize)),
{
    name_is_read(t, unit, t[unit].after as int, lang, src, x);
}

proof fn name_is_read(t: Nodes, i: int, n: int, lang: Language, src: Seq<u8>, x: int)
    requires
        i <= x < n,
        t[x].kind == "identifier"@ || t[x].kind == "shorthand_property_identifier"@ && lang != Language::Rust && lang != Language::Python,
    ensures
        read_names(t, i, n, lang, src).contains((t[x].text, line_at(src, t[x].start as int) as usize)),
    decreases n - i,
{
    let rest = read_names(t, i, n - 1, lang, src);
    let all = read_names(t, i, n, lang, src);
    let want = (t[x].text, line_at(src, t[x].start as int) as usize);
    if x == n - 1 {
        assert(all[rest.len() as int] == want);
    } else {
        name_is_read(t, i, n - 1, lang, src, x);
        let k = choose|k: int| 0 <= k < rest.len() && rest[k] == want;
        assert(all[k] == rest[k]);
    }
}

/// A phase takes a local: it is bound before the phase, not in it, and read in it.
pub open spec fn takes_local(p: PhaseView, name: Chars, binds: Seq<Mention>, reads: Seq<Mention>) -> bool {
    &&& exists|k: int| 0 <= k < binds.len() && (#[trigger] binds[k]).0 == name && binds[k].1 < p.start
    &&& forall|k: int| 0 <= k < binds.len() && (#[trigger] binds[k]).0 == name ==> binds[k].1 < p.start || binds[k].1 > p.end
    &&& exists|k: int| 0 <= k < reads.len() && (#[trigger] reads[k]).0 == name && p.start <= reads[k].1 <= p.end
}

proof fn takers_are_counted(phases: Seq<PhaseView>, name: Chars, binds: Seq<Mention>, reads: Seq<Mention>, a: int, b: int)
    requires
        0 <= a < b < phases.len(),
        takes_local(phases[a], name, binds, reads),
        takes_local(phases[b], name, binds, reads),
    ensures
        takers(phases, name, binds, reads) >= 2,
    decreases phases.len(),
{
    let less = phases.drop_last();
    if b == phases.len() - 1 {
        one_taker_is_counted(less, name, binds, reads, a);
        assert(takes(phases.last(), name, binds, reads));
    } else {
        takers_are_counted(less, name, binds, reads, a, b);
    }
}

proof fn one_taker_is_counted(phases: Seq<PhaseView>, name: Chars, binds: Seq<Mention>, reads: Seq<Mention>, a: int)
    requires
        0 <= a < phases.len(),
        takes_local(phases[a], name, binds, reads),
    ensures
        takers(phases, name, binds, reads) >= 1,
    decreases phases.len(),
{
    if a == phases.len() - 1 {
        assert(takes(phases.last(), name, binds, reads));
    } else {
        one_taker_is_counted(phases.drop_last(), name, binds, reads, a);
    }
}

proof fn bound_is_named(binds: Seq<Mention>, k: int)
    requires
        0 <= k < binds.len(),
    ensures
        once_each(binds).contains(binds[k].0),
    decreases binds.len(),
{
    let less = binds.drop_last();
    let rest = once_each(less);
    let all = once_each(binds);
    if k == binds.len() - 1 {
        if !rest.contains(binds[k].0) {
            assert(all[rest.len() as int] == binds[k].0);
        }
    } else {
        bound_is_named(less, k);
        let x = choose|x: int| 0 <= x < rest.len() && rest[x] == binds[k].0;
        assert(all[x] == rest[x]);
    }
}

proof fn taken_is_shared(names: Seq<Chars>, phases: Seq<PhaseView>, binds: Seq<Mention>, reads: Seq<Mention>, k: int)
    requires
        0 <= k < names.len(),
        takers(phases, names[k], binds, reads) >= 2,
    ensures
        shared_of(names, phases, binds, reads).contains(names[k]),
    decreases names.len(),
{
    let rest = shared_of(names.drop_last(), phases, binds, reads);
    let all = shared_of(names, phases, binds, reads);
    if k == names.len() - 1 {
        assert(all[rest.len() as int] == names[k]);
    } else {
        taken_is_shared(names.drop_last(), phases, binds, reads, k);
        let x = choose|x: int| 0 <= x < rest.len() && rest[x] == names[k];
        assert(all[x] == rest[x]);
    }
}

/// A local that two phases take is shared.
pub proof fn a_local_of_two_phases_is_shared(phases: Seq<PhaseView>, name: Chars, binds: Seq<Mention>, reads: Seq<Mention>, a: int, b: int)
    requires
        0 <= a < b < phases.len(),
        takes_local(phases[a], name, binds, reads),
        takes_local(phases[b], name, binds, reads),
    ensures
        shared_of(once_each(binds), phases, binds, reads).contains(name),
{
    takers_are_counted(phases, name, binds, reads, a, b);
    let k = choose|k: int| 0 <= k < binds.len() && (#[trigger] binds[k]).0 == name && binds[k].1 < phases[a].start;
    bound_is_named(binds, k);
    let names = once_each(binds);
    let x = choose|x: int| 0 <= x < names.len() && names[x] == name;
    taken_is_shared(names, phases, binds, reads, x);
}

// ---------- what is reported ----------

/// A function is looked at where it is complex and long enough and, if the settings say so, in no test.
pub open spec fn is_looked_at(fm: FunctionMetrics, start: usize, regions: Seq<TestRegion>, floor: u32, cfg: Comments) -> bool {
    &&& fm.cognitive >= floor
    &&& fm.lines >= cfg.phases.min_span_lines
    &&& cfg.phases.skip_test_modules ==> forall|k: int|
        0 <= k < regions.len() ==> !((#[trigger] regions[k]).start <= start < regions[k].end)
}

/// Every function that is looked at and has its phases is a unit of its file.
pub proof fn every_function_with_phases_is_a_unit(
    t: Nodes,
    f: SourceFile,
    regions: Seq<TestRegion>,
    funcs: Seq<FunctionMetrics>,
    nodes: Seq<usize>,
    estimates: Seq<Vec<u32>>,
    floor: u32,
    cfg: Comments,
    n: int,
    k: int,
    u: UnitView,
)
    requires
        0 <= k < n,
        is_looked_at(funcs[k], t[nodes[k] as int].start, regions, floor, cfg),
        unit_phases(t, nodes[k] as int, funcs[k], f.lang, bytes_of(f), estimates_at(estimates, k), cfg) == Some(u),
    ensures
        phased(t, f, regions, funcs, nodes, estimates, floor, cfg, n).1.contains(u),
    decreases n,
{
    let was = phased(t, f, regions, funcs, nodes, estimates, floor, cfg, n - 1).1;
    let all = phased(t, f, regions, funcs, nodes, estimates, floor, cfg, n).1;
    if k == n - 1 {
        assert(looked_at(funcs[k], t[nodes[k] as int].start, regions, floor, cfg));
        assert(all[was.len() as int] == u);
    } else {
        every_function_with_phases_is_a_unit(t, f, regions, funcs, nodes, estimates, floor, cfg, n - 1, k, u);
        let x = choose|x: int| 0 <= x < was.len() && was[x] == u;
        assert(all[x] == was[x]);
    }
}

/// A function has its phases where its body is a block, enough comments label one, and each is long
/// enough.
pub proof fn a_function_has_enough_long_phases(
    t: Nodes,
    unit: int,
    fm: FunctionMetrics,
    lang: Language,
    src: Seq<u8>,
    estimates: Seq<u32>,
    cfg: Comments,
)
    ensures
        ({
            let found = phase_comments(t, unit, lang, cfg);
            let spans = spans_of(t, src, found, cfg);
            let r = unit_phases(t, unit, fm, lang, src, estimates, cfg);
            &&& r is Some <==> (child_of(t, unit, "body"@) matches Some(b) && is_block(lang, t[b as int].kind)) && found.len()
                >= cfg.phases.min_phases && forall|k: int| 0 <= k < spans.len() ==> (#[trigger] spans[k]).lines >= cfg.phases.min_phase_lines
            &&& r matches Some(u) ==> u.unit == fm.name@ && u.start_line == fm.start_line && u.end_line == fm.end_line && u.phases.len()
                == found.len()
        }),
{
}

/// A file is reported where banners are looked for, it is long enough, it has enough sections, and one
/// of them is long enough.
pub proof fn a_file_is_reported_by_its_sections(s: SideView, cfg: Comments)
    ensures
        qualified(s, cfg) <==> cfg.banners.enabled && s.lines >= cfg.banners.min_file_lines && s.sections.len() >= cfg.banners.min_sections && exists|
            k: int,
        | 0 <= k < s.sections.len() && (#[trigger] s.sections[k]).lines >= cfg.banners.min_section_lines,
{
    let n = s.sections.len() as int;
    if n > 0 {
        longest_is(s.sections, n);
        let m = longest(s.sections, n);
        assert(0 <= m < n);
        if s.sections[m].lines >= cfg.banners.min_section_lines {
            assert(s.sections[m].lines >= cfg.banners.min_section_lines);
        }
    }
}

proof fn longest_is(sections: Seq<SectionView>, n: int)
    requires
        0 < n <= sections.len(),
    ensures
        0 <= longest(sections, n) < n,
        forall|k: int| 0 <= k < n ==> (#[trigger] sections[k]).lines <= sections[longest(sections, n)].lines,
    decreases n,
{
    if n > 1 {
        longest_is(sections, n - 1);
    }
}

/// A file whose name says little is shown with its directory; any other by its name.
pub proof fn a_file_is_shown_by_a_telling_name(dir: Chars, stem: Chars, ext: Chars)
    requires
        crate::laws::is_part(stem),
        crate::laws::is_part(ext),
        forall|i: int| 0 <= i < ext.len() ==> #[trigger] ext[i] != '.',
    ensures
        ({
            let base = crate::laws::dotted(stem, ext);
            let plain = stem != "mod"@ && stem != "index"@ && stem != "__init__"@;
            &&& plain ==> shown_name(dir + "/"@ + base) == base
            &&& !plain ==> shown_name(dir + "/"@ + base) == base_of(dir) + "/"@ + base
        }),
{
    let base = crate::laws::dotted(stem, ext);
    assert(crate::laws::is_part(base)) by {
        assert forall|i: int| 0 <= i < base.len() implies #[trigger] base[i] != '/' by {
            if i < stem.len() {
                assert(base[i] == stem[i]);
            } else if i > stem.len() {
                assert(base[i] == ext[i - stem.len() - 1]);
            }
        }
    }
    crate::laws::a_path_is_its_directory_and_its_name(dir, base);
    crate::laws::last_slash(dir, base);
    crate::laws::last_dot(stem, ext);
    assert(base.take(stem.len() as int) =~= stem);
}

} // verus!
