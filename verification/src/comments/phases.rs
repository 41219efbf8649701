//! Phase comments inside a function, and what its phases share.

use vstd::prelude::*;

use crate::comments::banners::last_byte;
use crate::comments::kinds::{
    binder, binder_field, block_kind, callable_kind, comment_kind, comment_text, doc_comment, has_word, ident_kind, is_block_kind,
    is_callable_kind, is_comment_kind, is_doc_comment, is_ident_kind, strip_comment, wordy_text,
};
use crate::comments::lines::{inked_lines, line_at, starts_are_after_line_feeds, LineIndex};
use crate::comments::titles::{labels_phase, ruleless, trim_rule, Walker};
use crate::config::{Comments, Phases};
use crate::lang::Language;
use crate::text::{
    around_first, chars, copy_list, decimal, digits, is_upper, join, joined, list_has, plus, put, same, slice, split_once, trim,
    trim_end, trimmed, trimmed_end, uppercase, Chars,
};
use crate::tree::{child_of, named_kids, Nodes, SyntaxTree};
use crate::units::FunctionMetrics;

verus! {

/// One labelled phase of a function body.
pub struct Phase {
    pub label: String,
    /// The phase comment's line…
    pub start: usize,
    /// …to the line before the next phase comment in the same block, or the block's end.
    pub end: usize,
    /// Non-blank lines of the span.
    pub lines: usize,
    /// Cognitive complexity of the phase's statements with nesting re-based to 0, where it is
    /// estimated.
    pub est_cognitive: Option<u32>,
    /// Locals bound before this phase that it and at least one other phase read.
    pub shared_locals: Vec<String>,
}

/// A [`Phase`] by its contents.
pub struct PhaseView {
    pub label: Chars,
    pub start: usize,
    pub end: usize,
    pub lines: usize,
    pub est_cognitive: Option<u32>,
    pub shared_locals: Seq<Chars>,
}

impl DeepView for Phase {
    type V = PhaseView;

    open spec fn deep_view(&self) -> PhaseView {
        PhaseView {
            label: self.label@,
            start: self.start,
            end: self.end,
            lines: self.lines,
            est_cognitive: self.est_cognitive,
            shared_locals: self.shared_locals.deep_view(),
        }
    }
}

/// A function over the cognitive threshold whose body labels its phases.
pub struct UnitPhases {
    pub unit: String,
    pub start_line: usize,
    pub end_line: usize,
    pub cognitive: u32,
    pub phases: Vec<Phase>,
    /// Every shared local, by first binding.
    pub shared_locals: Vec<String>,
    /// The sub-line printed under the file's metrics reason.
    pub reason: String,
}

/// A [`UnitPhases`] by its contents.
pub struct UnitView {
    pub unit: Chars,
    pub start_line: usize,
    pub end_line: usize,
    pub cognitive: u32,
    pub phases: Seq<PhaseView>,
    pub shared_locals: Seq<Chars>,
    pub reason: Chars,
}

impl DeepView for UnitPhases {
    type V = UnitView;

    open spec fn deep_view(&self) -> UnitView {
        UnitView {
            unit: self.unit@,
            start_line: self.start_line,
            end_line: self.end_line,
            cognitive: self.cognitive,
            phases: self.phases.deep_view(),
            shared_locals: self.shared_locals.deep_view(),
            reason: self.reason@,
        }
    }
}

// ---------- phase comments ----------

/// The phase comments under node `n` from its child `k` on, each with its parent, in order:
/// non-doc comments whose parent is a block at most `max_depth` levels below the body; nested
/// callables are their own scope.
pub open spec fn found_in(t: Nodes, n: int, depth: nat, k: int, lang: Language, cfg: Comments) -> Seq<(usize, usize)>
    decreases t.len() - n, t[n].children.len() - k,
{
    if n < 0 || n >= t.len() || k < 0 || k >= t[n].children.len() {
        Seq::empty()
    } else {
        let c = t[n].children[k] as int;
        let rest = found_in(t, n, depth, k + 1, lang, cfg);
        if c <= n || c >= t.len() {
            rest
        } else if comment_kind(lang, t[c].kind) {
            if block_kind(lang, t[n].kind) && !doc_comment(t, c) && labels_phase(cfg, comment_text(t[c].text)) {
                seq![(c as usize, n as usize)] + rest
            } else {
                rest
            }
        } else if block_kind(lang, t[c].kind) {
            if depth < cfg.phases.max_depth {
                found_in(t, c, depth + 1, 0, lang, cfg) + rest
            } else {
                rest
            }
        } else if callable_kind(lang, t[c].kind) {
            rest
        } else {
            found_in(t, c, depth, 0, lang, cfg) + rest
        }
    }
}

/// Every phase comment, and its parent, is a node.
pub open spec fn in_tree(t: Nodes, found: Seq<(usize, usize)>) -> bool {
    forall|k: int| 0 <= k < found.len() ==> (#[trigger] found[k]).0 < t.len() && found[k].1 < t.len()
}

impl<'c> Walker<'c> {
    fn collect(&self, t: &SyntaxTree, n: usize, depth: usize, lang: Language, out: &mut Vec<(usize, usize)>)
        requires
            self.ok(),
            t.ok(),
            n < t@.len(),
            depth <= self.cfg.phases.max_depth,
            in_tree(t@, old(out)@),
        ensures
            final(out)@ == old(out)@ + found_in(t@, n as int, depth as nat, 0, lang, *self.cfg),
            in_tree(t@, final(out)@),
        decreases t@.len() - n,
    {
        let kids = &t.nodes[n].children;
        assert(t@[n as int] == t.nodes@[n as int].deep_view());
        assert(crate::tree::node_ok(t@, n as int));
        let block = is_block_kind(lang, t.kind(n));
        let ghost start = out@;
        let ghost all = found_in(t@, n as int, depth as nat, 0, lang, *self.cfg);
        let mut k: usize = 0;
        while k < kids.len()
            invariant
                k <= kids.len(),
                self.ok(),
                t.ok(),
                n < t@.len(),
                depth <= self.cfg.phases.max_depth,
                kids@ == t@[n as int].children,
                crate::tree::node_ok(t@, n as int),
                block == block_kind(lang, t@[n as int].kind),
                in_tree(t@, out@),
                start + all == out@ + found_in(t@, n as int, depth as nat, k as int, lang, *self.cfg),
            decreases kids.len() - k,
        {
            assert(n < t@[n as int].children[k as int] < t@.len());
            let c: usize = kids[k];
            let ghost was = out@;
            let ghost rest = found_in(t@, n as int, depth as nat, k + 1, lang, *self.cfg);
            if is_comment_kind(lang, t.kind(c)) {
                if block && !is_doc_comment(t, c) && self.is_phase(strip_comment(t.text(c)).as_str()) {
                    out.push((c, n));
                    assert(was + (seq![(c, n)] + rest) =~= out@ + rest);
                }
            } else if is_block_kind(lang, t.kind(c)) {
                if depth < self.cfg.phases.max_depth {
                    self.collect(t, c, depth + 1, lang, out);
                    let ghost inner = found_in(t@, c as int, (depth + 1) as nat, 0, lang, *self.cfg);
                    assert(was + (inner + rest) =~= out@ + rest);
                }
            } else if !is_callable_kind(lang, t.kind(c)) {
                self.collect(t, c, depth, lang, out);
                let ghost inner = found_in(t@, c as int, depth as nat, 0, lang, *self.cfg);
                assert(was + (inner + rest) =~= out@ + rest);
            }
            k = k + 1;
        }
        assert(out@ + Seq::<(usize, usize)>::empty() =~= out@);
    }
}

/// The body of a unit, where it is a block.
pub open spec fn body_of(t: Nodes, unit: int, lang: Language) -> Option<usize> {
    match child_of(t, unit, "body"@) {
        Some(b) => if block_kind(lang, t[b as int].kind) {
            Some(b)
        } else {
            None
        },
        None => None,
    }
}

/// The phase comments of a unit, each with its parent.
pub open spec fn phase_comments(t: Nodes, unit: int, lang: Language, cfg: Comments) -> Seq<(usize, usize)> {
    match body_of(t, unit, lang) {
        Some(b) => found_in(t, b as int, 0, 0, lang, cfg),
        None => Seq::empty(),
    }
}

// ---------- spans ----------

/// A label as printed: what stands before the colon, cut to 40 characters.
pub open spec fn label_of(text: Chars, rule_chars: Chars) -> Chars {
    let t = ruleless(text, rule_chars);
    let head = match around_first(t, ':') {
        Some((h, _)) => if wordy_text(trimmed(h)) {
            trimmed(h)
        } else {
            t
        },
        None => t,
    };
    let bare = ruleless(head, rule_chars);
    let label = if bare.len() == 0 {
        t
    } else {
        bare
    };
    if label.len() > 40 {
        trimmed_end(label.take(39)) + "…"@
    } else {
        label
    }
}

/// The label of a phase comment.
pub fn phase_label(text: &str, rule_chars: &str) -> (out: String)
    ensures
        out@ == label_of(text@, rule_chars@),
{
    let t = trim_rule(text, rule_chars);
    let head = match split_once(t.as_str(), ':') {
        Some((h, _)) => {
            let h = trim(h.as_str());
            if has_word(h.as_str()) {
                h
            } else {
                t.as_str().to_owned()
            }
        },
        None => t.as_str().to_owned(),
    };
    let bare = trim_rule(head.as_str(), rule_chars);
    let label = if bare.as_str().unicode_len() == 0 {
        t
    } else {
        bare
    };
    if label.as_str().unicode_len() > 40 {
        let a = chars(label.as_str());
        plus(trim_end(slice(&a, 0, 39).as_str()), "…")
    } else {
        label
    }
}

/// The line before the next phase comment from `k` on with the same parent.
pub open spec fn next_start(t: Nodes, src: Seq<u8>, found: Seq<(usize, usize)>, parent: usize, k: int) -> Option<nat>
    decreases found.len() - k,
{
    if k < 0 || k >= found.len() {
        None
    } else if found[k].1 == parent {
        Some((line_at(src, t[found[k].0 as int].start as int) - 1) as nat)
    } else {
        next_start(t, src, found, parent, k + 1)
    }
}

/// The last line of a phase.
pub open spec fn phase_end(t: Nodes, src: Seq<u8>, found: Seq<(usize, usize)>, i: int) -> nat {
    let start = line_at(src, t[found[i].0 as int].start as int);
    let end = match next_start(t, src, found, found[i].1, i + 1) {
        Some(n) => n,
        None => line_at(src, last_byte(t[found[i].1 as int].end)),
    };
    if end < start {
        start
    } else {
        end
    }
}

/// A phase before estimates and locals.
pub open spec fn span_at(t: Nodes, src: Seq<u8>, found: Seq<(usize, usize)>, i: int, cfg: Comments) -> PhaseView {
    let start = line_at(src, t[found[i].0 as int].start as int);
    let end = phase_end(t, src, found, i);
    PhaseView {
        label: label_of(comment_text(t[found[i].0 as int].text), cfg.banners.rule_chars@),
        start: start as usize,
        end: end as usize,
        lines: inked_lines(src, src, start as int, end as int) as usize,
        est_cognitive: None,
        shared_locals: Seq::empty(),
    }
}

/// The phases of a unit before estimates and locals.
pub open spec fn spans_of(t: Nodes, src: Seq<u8>, found: Seq<(usize, usize)>, cfg: Comments) -> Seq<PhaseView> {
    Seq::new(found.len(), |i: int| span_at(t, src, found, i, cfg))
}

fn find_next(t: &SyntaxTree, lines: &LineIndex, found: &Vec<(usize, usize)>, parent: usize, from: usize) -> (r: Option<usize>)
    requires
        in_tree(t@, found@),
        from <= found.len(),
    ensures
        (match r {
            Some(n) => Some(n as nat),
            None => None,
        }) == next_start(t@, lines@, found@, parent, from as int),
{
    let mut k: usize = from;
    while k < found.len()
        invariant
            from <= k <= found.len(),
            in_tree(t@, found@),
            next_start(t@, lines@, found@, parent, from as int) == next_start(t@, lines@, found@, parent, k as int),
        decreases found.len() - k,
    {
        if found[k].1 == parent {
            let c: usize = found[k].0;
            assert(found@[k as int].0 < t@.len());
            assert(t@[c as int] == t.nodes@[c as int].deep_view());
            return Some(lines.line_of(t.nodes[c].start) - 1);
        }
        k = k + 1;
    }
    None
}

impl<'c> Walker<'c> {
    fn spans(&self, t: &SyntaxTree, src: &[u8], lines: &LineIndex, found: &Vec<(usize, usize)>) -> (out: Vec<Phase>)
        requires
            in_tree(t@, found@),
            lines@ == src@,
        ensures
            out.deep_view() == spans_of(t@, src@, found@, *self.cfg),
            forall|k: int|
                0 <= k < out.len() ==> (#[trigger] out@[k]).start == line_at(src@, t@[found@[k].0 as int].start as int)
                    && out@[k].end == phase_end(t@, src@, found@, k),
    {
        let mut out: Vec<Phase> = Vec::new();
        let mut i: usize = 0;
        while i < found.len()
            invariant
                i <= found.len(),
                out.len() == i,
                in_tree(t@, found@),
                lines@ == src@,
                forall|k: int| 0 <= k < i ==> (#[trigger] out@[k]).deep_view() == span_at(t@, src@, found@, k, *self.cfg),
                forall|k: int|
                    0 <= k < i ==> (#[trigger] out@[k]).start == line_at(src@, t@[found@[k].0 as int].start as int)
                        && out@[k].end == phase_end(t@, src@, found@, k),
            decreases found.len() - i,
        {
            let (c, parent) = found[i];
            assert(found@[i as int].0 < t@.len());
            assert(t@[c as int] == t.nodes@[c as int].deep_view());
            assert(t@[parent as int] == t.nodes@[parent as int].deep_view());
            let start = lines.line_of(t.nodes[c].start);
            let closing: usize = t.nodes[parent].end;
            let last: usize = if closing == 0 {
                0
            } else {
                closing - 1
            };
            let end: usize = match find_next(t, lines, found, parent, i + 1) {
                Some(n) => n,
                None => lines.line_of(last),
            };
            let end: usize = if end < start {
                start
            } else {
                end
            };
            let label = phase_label(strip_comment(t.text(c)).as_str(), self.cfg.banners.rule_chars.as_str());
            let none: Vec<String> = Vec::new();
            assert(none.deep_view() =~= Seq::<Chars>::empty());
            proof {
                starts_are_after_line_feeds(src@);
            }
            let n = lines.non_blank(src, start, end);
            out.push(Phase { label, start, end, lines: n, est_cognitive: None, shared_locals: none });
            i = i + 1;
        }
        assert(out.deep_view() =~= spans_of(t@, src@, found@, *self.cfg));
        out
    }
}

/// Every phase is long enough.
pub open spec fn long_enough(spans: Seq<PhaseView>, least: usize) -> bool {
    forall|k: int| 0 <= k < spans.len() ==> (#[trigger] spans[k]).lines >= least
}

fn all_long(spans: &Vec<Phase>, least: usize) -> (r: bool)
    ensures
        r == long_enough(spans.deep_view(), least),
{
    let ghost view = spans.deep_view();
    let mut k: usize = 0;
    while k < spans.len()
        invariant
            k <= spans.len(),
            view == spans.deep_view(),
            forall|j: int| 0 <= j < k ==> (#[trigger] view[j]).lines >= least,
        decreases spans.len() - k,
    {
        assert(view[k as int] == spans@[k as int].deep_view());
        if spans[k].lines < least {
            return false;
        }
        k = k + 1;
    }
    true
}

// ---------- estimates ----------

/// The statements of a block that start in a phase; comments aside.
pub open spec fn statements(t: Nodes, kids: Seq<usize>, lang: Language, src: Seq<u8>, start: nat, end: nat) -> Seq<usize>
    decreases kids.len(),
{
    if kids.len() == 0 {
        Seq::empty()
    } else {
        let rest = statements(t, kids.drop_last(), lang, src, start, end);
        let s = kids.last();
        if !comment_kind(lang, t[s as int].kind) && start <= line_at(src, t[s as int].start as int) <= end {
            rest.push(s)
        } else {
            rest
        }
    }
}

/// The statements of each phase of a unit, in order.
pub open spec fn statements_of(
    t: Nodes,
    unit: int,
    lang: Language,
    src: Seq<u8>,
    cfg: Comments,
) -> Seq<Seq<usize>> {
    let found = phase_comments(t, unit, lang, cfg);
    Seq::new(
        found.len(),
        |i: int|
            statements(
                t,
                named_kids(t, found[i].1 as int),
                lang,
                src,
                line_at(src, t[found[i].0 as int].start as int),
                phase_end(t, src, found, i),
            ),
    )
}

fn statements_in(
    t: &SyntaxTree,
    parent: usize,
    lang: Language,
    lines: &LineIndex,
    start: usize,
    end: usize,
) -> (out: Vec<usize>)
    requires
        t.ok(),
        parent < t@.len(),
    ensures
        out@ == statements(t@, named_kids(t@, parent as int), lang, lines@, start as nat, end as nat),
{
    let kids = t.named_children(parent);
    let ghost view = kids@;
    proof {
        crate::tree::named_kids_are_later(t@, parent as int);
    }
    let mut out: Vec<usize> = Vec::new();
    let mut k: usize = 0;
    assert(view.take(0) =~= Seq::<usize>::empty());
    while k < kids.len()
        invariant
            k <= kids.len(),
            t.ok(),
            view == kids@,
            forall|j: int| 0 <= j < view.len() ==> #[trigger] view[j] < t@.len(),
            out@ == statements(t@, view.take(k as int), lang, lines@, start as nat, end as nat),
        decreases kids.len() - k,
    {
        assert(view.take(k + 1).drop_last() =~= view.take(k as int));
        let s: usize = kids[k];
        assert(view[k as int] < t@.len());
        assert(t@[s as int] == t.nodes@[s as int].deep_view());
        if !is_comment_kind(lang, t.kind(s)) {
            let l = lines.line_of(t.nodes[s].start);
            if start <= l && l <= end {
                out.push(s);
            }
        }
        k = k + 1;
    }
    assert(view.take(view.len() as int) =~= view);
    out
}

/// The phases with the complexity of their statements, where it is asked for.
pub open spec fn estimated(spans: Seq<PhaseView>, estimates: Seq<u32>, on: bool) -> Seq<PhaseView> {
    Seq::new(
        spans.len(),
        |i: int|
            PhaseView {
                est_cognitive: if on {
                    Some(
                        if i < estimates.len() {
                            estimates[i]
                        } else {
                            0
                        },
                    )
                } else {
                    None
                },
                ..spans[i]
            },
    )
}

fn estimate(spans: Vec<Phase>, estimates: &Vec<u32>, on: bool) -> (out: Vec<Phase>)
    ensures
        out.deep_view() == estimated(spans.deep_view(), estimates@, on),
{
    let ghost view = spans.deep_view();
    let mut out: Vec<Phase> = Vec::new();
    let mut i: usize = 0;
    while i < spans.len()
        invariant
            i <= spans.len(),
            out.len() == i,
            view == spans.deep_view(),
            forall|k: int| 0 <= k < i ==> (#[trigger] out@[k]).deep_view() == estimated(view, estimates@, on)[k],
        decreases spans.len() - i,
    {
        let p = &spans[i];
        assert(view[i as int] == p.deep_view());
        let est: u32 = if i < estimates.len() {
            estimates[i]
        } else {
            0
        };
        out.push(
            Phase {
                label: p.label.as_str().to_owned(),
                start: p.start,
                end: p.end,
                lines: p.lines,
                est_cognitive: if on {
                    Some(est)
                } else {
                    None
                },
                shared_locals: copy_list(&p.shared_locals),
            },
        );
        i = i + 1;
    }
    assert(out.deep_view() =~= estimated(view, estimates@, on));
    out
}

// ---------- shared locals ----------

/// A name on a line.
pub type Mention = (Chars, usize);

/// A name a pattern binds: an identifier that does not start with a capital, which would be a
/// constructor or a type.
pub open spec fn binds_at(t: Nodes, i: int, lang: Language) -> bool {
    &&& ident_kind(lang, t[i].kind) || t[i].kind == "shorthand_property_identifier_pattern"@
    &&& !(t[i].text.len() > 0 && uppercase(t[i].text[0]))
}

/// The names the nodes from `i` to `n` bind as parts of a pattern.
pub open spec fn pattern_names(t: Nodes, i: int, n: int, lang: Language, src: Seq<u8>) -> Seq<Mention>
    decreases n - i,
{
    if i >= n {
        Seq::empty()
    } else {
        pattern_names(t, i, n - 1, lang, src) + (if binds_at(t, n - 1, lang) {
            seq![(t[n - 1].text, line_at(src, t[n - 1].start as int) as usize)]
        } else {
            Seq::empty()
        })
    }
}

/// The pattern of a binder.
pub open spec fn pattern_at(t: Nodes, i: int, lang: Language) -> Option<usize> {
    match binder_field(lang, t[i].kind) {
        Some(field) => if field == ""@ {
            Some(i as usize)
        } else {
            child_of(t, i, field)
        },
        None => None,
    }
}

/// What the nodes from `i` to `n` bind, in order.
pub open spec fn bound_names(t: Nodes, i: int, n: int, lang: Language, src: Seq<u8>) -> Seq<Mention>
    decreases n - i,
{
    if i >= n {
        Seq::empty()
    } else {
        bound_names(t, i, n - 1, lang, src) + (match pattern_at(t, n - 1, lang) {
            Some(p) => pattern_names(t, p as int, t[p as int].after as int, lang, src),
            None => Seq::empty(),
        })
    }
}

/// What the nodes from `i` to `n` read, in order.
pub open spec fn read_names(t: Nodes, i: int, n: int, lang: Language, src: Seq<u8>) -> Seq<Mention>
    decreases n - i,
{
    if i >= n {
        Seq::empty()
    } else {
        read_names(t, i, n - 1, lang, src) + (if ident_kind(lang, t[n - 1].kind) {
            seq![(t[n - 1].text, line_at(src, t[n - 1].start as int) as usize)]
        } else {
            Seq::empty()
        })
    }
}

fn add_pattern(t: &SyntaxTree, p: usize, lang: Language, lines: &LineIndex, out: &mut Vec<(String, usize)>)
    requires
        t.ok(),
        p < t@.len(),
    ensures
        final(out).deep_view() == old(out).deep_view() + pattern_names(
            t@,
            p as int,
            t@[p as int].after as int,
            lang,
            lines@,
        ),
{
    let ghost start = out.deep_view();
    assert(t@[p as int] == t.nodes@[p as int].deep_view());
    assert(crate::tree::node_ok(t@, p as int));
    let end: usize = t.nodes[p].after;
    let mut i: usize = p;
    assert(start + Seq::<Mention>::empty() =~= start);
    while i < end
        invariant
            p <= i <= end <= t@.len(),
            t.ok(),
            out.deep_view() == start + pattern_names(t@, p as int, i as int, lang, lines@),
        decreases end - i,
    {
        assert(t@[i as int] == t.nodes@[i as int].deep_view());
        let n = &t.nodes[i];
        let ghost done = pattern_names(t@, p as int, i as int, lang, lines@);
        let ghost was = out.deep_view();
        let mut capital = false;
        if n.text.as_str().unicode_len() > 0 {
            capital = is_upper(n.text.as_str().get_char(0));
        }
        if (is_ident_kind(lang, n.kind.as_str()) || same(n.kind.as_str(), "shorthand_property_identifier_pattern"))
            && !capital {
            put(out, (n.text.as_str().to_owned(), lines.line_of(n.start)));
            let ghost one = (t@[i as int].text, line_at(lines@, t@[i as int].start as int) as usize);
            assert(was.push(one) =~= start + (done + seq![one]));
        } else {
            assert(start + (done + Seq::<Mention>::empty()) =~= was);
        }
        i = i + 1;
    }
}

fn mentions(t: &SyntaxTree, unit: usize, lang: Language, lines: &LineIndex) -> (r: (Vec<(String, usize)>, Vec<(String, usize)>))
    requires
        t.ok(),
        unit < t@.len(),
    ensures
        r.0.deep_view() == bound_names(t@, unit as int, t@[unit as int].after as int, lang, lines@),
        r.1.deep_view() == read_names(t@, unit as int, t@[unit as int].after as int, lang, lines@),
{
    assert(t@[unit as int] == t.nodes@[unit as int].deep_view());
    assert(crate::tree::node_ok(t@, unit as int));
    let end: usize = t.nodes[unit].after;
    let mut binds: Vec<(String, usize)> = Vec::new();
    let mut reads: Vec<(String, usize)> = Vec::new();
    assert(binds.deep_view() =~= Seq::<Mention>::empty());
    assert(reads.deep_view() =~= Seq::<Mention>::empty());
    let mut i: usize = unit;
    while i < end
        invariant
            unit <= i <= end <= t@.len(),
            t.ok(),
            binds.deep_view() == bound_names(t@, unit as int, i as int, lang, lines@),
            reads.deep_view() == read_names(t@, unit as int, i as int, lang, lines@),
        decreases end - i,
    {
        assert(t@[i as int] == t.nodes@[i as int].deep_view());
        let n = &t.nodes[i];
        let ghost was = reads.deep_view();
        if is_ident_kind(lang, n.kind.as_str()) {
            put(&mut reads, (n.text.as_str().to_owned(), lines.line_of(n.start)));
            let ghost one = (t@[i as int].text, line_at(lines@, t@[i as int].start as int) as usize);
            assert(was.push(one) =~= was + seq![one]);
        } else {
            assert(was + Seq::<Mention>::empty() =~= was);
        }
        let pat = match binder(lang, n.kind.as_str()) {
            Some(field) => if same(field, "") {
                Some(i)
            } else {
                t.child(i, field)
            },
            None => None,
        };
        assert(pat == pattern_at(t@, i as int, lang));
        if let Some(p) = pat {
            add_pattern(t, p, lang, lines, &mut binds);
        } else {
            let ghost b = binds.deep_view();
            assert(b + Seq::<Mention>::empty() =~= b);
        }
        i = i + 1;
    }
    (binds, reads)
}

/// A name stands on a line between two.
pub open spec fn stands_within(list: Seq<Mention>, name: Chars, from: usize, to: usize) -> bool {
    exists|k: int| 0 <= k < list.len() && (#[trigger] list[k]).0 == name && from <= list[k].1 <= to
}

/// A name stands before a line.
pub open spec fn stands_before(list: Seq<Mention>, name: Chars, line: usize) -> bool {
    exists|k: int| 0 <= k < list.len() && (#[trigger] list[k]).0 == name && list[k].1 < line
}

fn within(list: &Vec<(String, usize)>, name: &str, from: usize, to: usize) -> (r: bool)
    ensures
        r == stands_within(list.deep_view(), name@, from, to),
{
    let ghost view = list.deep_view();
    let mut k: usize = 0;
    while k < list.len()
        invariant
            k <= list.len(),
            view == list.deep_view(),
            forall|j: int| 0 <= j < k ==> !((#[trigger] view[j]).0 == name@ && from <= view[j].1 <= to),
        decreases list.len() - k,
    {
        assert(view[k as int] == list@[k as int].deep_view());
        if from <= list[k].1 && list[k].1 <= to && same(list[k].0.as_str(), name) {
            return true;
        }
        k = k + 1;
    }
    false
}

fn earlier(list: &Vec<(String, usize)>, name: &str, line: usize) -> (r: bool)
    ensures
        r == stands_before(list.deep_view(), name@, line),
{
    let ghost view = list.deep_view();
    let mut k: usize = 0;
    while k < list.len()
        invariant
            k <= list.len(),
            view == list.deep_view(),
            forall|j: int| 0 <= j < k ==> !((#[trigger] view[j]).0 == name@ && view[j].1 < line),
        decreases list.len() - k,
    {
        assert(view[k as int] == list@[k as int].deep_view());
        if list[k].1 < line && same(list[k].0.as_str(), name) {
            return true;
        }
        k = k + 1;
    }
    false
}

/// A phase reads a name that was bound before it and that it does not bind itself.
pub open spec fn takes(p: PhaseView, name: Chars, binds: Seq<Mention>, reads: Seq<Mention>) -> bool {
    &&& !stands_within(binds, name, p.start, p.end)
    &&& stands_before(binds, name, p.start)
    &&& stands_within(reads, name, p.start, p.end)
}

/// How many phases read a name so.
pub open spec fn takers(phases: Seq<PhaseView>, name: Chars, binds: Seq<Mention>, reads: Seq<Mention>) -> nat
    decreases phases.len(),
{
    if phases.len() == 0 {
        0
    } else {
        takers(phases.drop_last(), name, binds, reads) + (if takes(phases.last(), name, binds, reads) {
            1nat
        } else {
            0
        })
    }
}

/// The names that are bound, each once, by first binding.
pub open spec fn once_each(binds: Seq<Mention>) -> Seq<Chars>
    decreases binds.len(),
{
    if binds.len() == 0 {
        Seq::empty()
    } else {
        let rest = once_each(binds.drop_last());
        if rest.contains(binds.last().0) {
            rest
        } else {
            rest.push(binds.last().0)
        }
    }
}

/// The names that at least two phases read.
pub open spec fn shared_of(names: Seq<Chars>, phases: Seq<PhaseView>, binds: Seq<Mention>, reads: Seq<Mention>) -> Seq<Chars>
    decreases names.len(),
{
    if names.len() == 0 {
        Seq::empty()
    } else {
        let rest = shared_of(names.drop_last(), phases, binds, reads);
        if takers(phases, names.last(), binds, reads) >= 2 {
            rest.push(names.last())
        } else {
            rest
        }
    }
}

/// The names that a phase reads.
pub open spec fn taken_by(p: PhaseView, names: Seq<Chars>, binds: Seq<Mention>, reads: Seq<Mention>) -> Seq<Chars>
    decreases names.len(),
{
    if names.len() == 0 {
        Seq::empty()
    } else {
        let rest = taken_by(p, names.drop_last(), binds, reads);
        if takes(p, names.last(), binds, reads) {
            rest.push(names.last())
        } else {
            rest
        }
    }
}

/// The phases with the shared names each of them reads.
pub open spec fn with_locals(phases: Seq<PhaseView>, shared: Seq<Chars>, binds: Seq<Mention>, reads: Seq<Mention>) -> Seq<
    PhaseView,
> {
    Seq::new(
        phases.len(),
        |i: int| PhaseView { shared_locals: taken_by(phases[i], shared, binds, reads), ..phases[i] },
    )
}

fn does_take(p: &Phase, name: &str, binds: &Vec<(String, usize)>, reads: &Vec<(String, usize)>) -> (r: bool)
    ensures
        r == takes(p.deep_view(), name@, binds.deep_view(), reads.deep_view()),
{
    !within(binds, name, p.start, p.end) && earlier(binds, name, p.start) && within(reads, name, p.start, p.end)
}

fn count_takers(phases: &Vec<Phase>, name: &str, binds: &Vec<(String, usize)>, reads: &Vec<(String, usize)>) -> (n: usize)
    ensures
        n == takers(phases.deep_view(), name@, binds.deep_view(), reads.deep_view()),
{
    let ghost view = phases.deep_view();
    let mut n: usize = 0;
    let mut k: usize = 0;
    assert(view.take(0) =~= Seq::<PhaseView>::empty());
    while k < phases.len()
        invariant
            k <= phases.len(),
            n <= k,
            view == phases.deep_view(),
            n == takers(view.take(k as int), name@, binds.deep_view(), reads.deep_view()),
        decreases phases.len() - k,
    {
        assert(view.take(k + 1).drop_last() =~= view.take(k as int));
        assert(view[k as int] == phases@[k as int].deep_view());
        if does_take(&phases[k], name, binds, reads) {
            n = n + 1;
        }
        k = k + 1;
    }
    assert(view.take(view.len() as int) =~= view);
    n
}

fn names_once(binds: &Vec<(String, usize)>) -> (out: Vec<String>)
    ensures
        out.deep_view() == once_each(binds.deep_view()),
{
    let ghost view = binds.deep_view();
    let mut out: Vec<String> = Vec::new();
    let mut k: usize = 0;
    assert(view.take(0) =~= Seq::<Mention>::empty());
    assert(out.deep_view() =~= Seq::<Chars>::empty());
    while k < binds.len()
        invariant
            k <= binds.len(),
            view == binds.deep_view(),
            out.deep_view() == once_each(view.take(k as int)),
        decreases binds.len() - k,
    {
        assert(view.take(k + 1).drop_last() =~= view.take(k as int));
        assert(view[k as int] == binds@[k as int].deep_view());
        if !list_has(&out, binds[k].0.as_str()) {
            put(&mut out, binds[k].0.as_str().to_owned());
        }
        k = k + 1;
    }
    assert(view.take(view.len() as int) =~= view);
    out
}

fn share(
    names: &Vec<String>,
    phases: &Vec<Phase>,
    binds: &Vec<(String, usize)>,
    reads: &Vec<(String, usize)>,
) -> (out: Vec<String>)
    ensures
        out.deep_view() == shared_of(names.deep_view(), phases.deep_view(), binds.deep_view(), reads.deep_view()),
{
    let ghost view = names.deep_view();
    let mut out: Vec<String> = Vec::new();
    let mut k: usize = 0;
    assert(view.take(0) =~= Seq::<Chars>::empty());
    assert(out.deep_view() =~= Seq::<Chars>::empty());
    while k < names.len()
        invariant
            k <= names.len(),
            view == names.deep_view(),
            out.deep_view() == shared_of(view.take(k as int), phases.deep_view(), binds.deep_view(), reads.deep_view()),
        decreases names.len() - k,
    {
        assert(view.take(k + 1).drop_last() =~= view.take(k as int));
        assert(view[k as int] == names@[k as int]@);
        if count_takers(phases, names[k].as_str(), binds, reads) >= 2 {
            put(&mut out, names[k].as_str().to_owned());
        }
        k = k + 1;
    }
    assert(view.take(view.len() as int) =~= view);
    out
}

fn take_names(p: &Phase, names: &Vec<String>, binds: &Vec<(String, usize)>, reads: &Vec<(String, usize)>) -> (out: Vec<
    String,
>)
    ensures
        out.deep_view() == taken_by(p.deep_view(), names.deep_view(), binds.deep_view(), reads.deep_view()),
{
    let ghost view = names.deep_view();
    let mut out: Vec<String> = Vec::new();
    let mut k: usize = 0;
    assert(view.take(0) =~= Seq::<Chars>::empty());
    assert(out.deep_view() =~= Seq::<Chars>::empty());
    while k < names.len()
        invariant
            k <= names.len(),
            view == names.deep_view(),
            out.deep_view() == taken_by(p.deep_view(), view.take(k as int), binds.deep_view(), reads.deep_view()),
        decreases names.len() - k,
    {
        assert(view.take(k + 1).drop_last() =~= view.take(k as int));
        assert(view[k as int] == names@[k as int]@);
        if does_take(p, names[k].as_str(), binds, reads) {
            put(&mut out, names[k].as_str().to_owned());
        }
        k = k + 1;
    }
    assert(view.take(view.len() as int) =~= view);
    out
}

/// What a unit binds.
pub open spec fn binds_of(t: Nodes, unit: int, lang: Language, src: Seq<u8>) -> Seq<Mention> {
    bound_names(t, unit, t[unit].after as int, lang, src)
}

/// What a unit reads.
pub open spec fn reads_of(t: Nodes, unit: int, lang: Language, src: Seq<u8>) -> Seq<Mention> {
    read_names(t, unit, t[unit].after as int, lang, src)
}

/// Names bound (parameter, `let`, assignment) before a phase and read in at least two phases that
/// do not bind them themselves; and the phases with their own.
pub fn shared_locals(t: &SyntaxTree, unit: usize, lang: Language, lines: &LineIndex, phases: Vec<Phase>) -> (r: (
    Vec<String>,
    Vec<Phase>,
))
    requires
        t.ok(),
        unit < t@.len(),
    ensures
        ({
            let binds = binds_of(t@, unit as int, lang, lines@);
            let reads = reads_of(t@, unit as int, lang, lines@);
            let shared = shared_of(once_each(binds), phases.deep_view(), binds, reads);
            &&& r.0.deep_view() == shared
            &&& r.1.deep_view() == with_locals(phases.deep_view(), shared, binds, reads)
        }),
{
    let (binds, reads) = mentions(t, unit, lang, lines);
    let names = names_once(&binds);
    let shared = share(&names, &phases, &binds, &reads);
    let ghost view = phases.deep_view();
    let ghost (bv, rv, sv) = (binds.deep_view(), reads.deep_view(), shared.deep_view());
    let mut out: Vec<Phase> = Vec::new();
    let mut i: usize = 0;
    while i < phases.len()
        invariant
            i <= phases.len(),
            out.len() == i,
            view == phases.deep_view(),
            bv == binds.deep_view(),
            rv == reads.deep_view(),
            sv == shared.deep_view(),
            forall|k: int| 0 <= k < i ==> (#[trigger] out@[k]).deep_view() == with_locals(view, sv, bv, rv)[k],
        decreases phases.len() - i,
    {
        let p = &phases[i];
        assert(view[i as int] == p.deep_view());
        out.push(
            Phase {
                label: p.label.as_str().to_owned(),
                start: p.start,
                end: p.end,
                lines: p.lines,
                est_cognitive: p.est_cognitive,
                shared_locals: take_names(p, &shared, &binds, &reads),
            },
        );
        i = i + 1;
    }
    assert(out.deep_view() =~= with_locals(view, sv, bv, rv));
    (shared, out)
}

/// A local a phase takes is shared: some other phase takes it too.
pub proof fn a_shared_local_has_two_takers(
    names: Seq<Chars>,
    phases: Seq<PhaseView>,
    binds: Seq<Mention>,
    reads: Seq<Mention>,
    i: int,
)
    requires
        0 <= i < shared_of(names, phases, binds, reads).len(),
    ensures
        names.contains(shared_of(names, phases, binds, reads)[i]),
        takers(phases, shared_of(names, phases, binds, reads)[i], binds, reads) >= 2,
    decreases names.len(),
{
    let less = names.drop_last();
    let rest = shared_of(less, phases, binds, reads);
    if i < rest.len() {
        a_shared_local_has_two_takers(less, phases, binds, reads, i);
        let k = choose|k: int| 0 <= k < less.len() && less[k] == rest[i];
        assert(names[k] == rest[i]);
    } else {
        assert(names[names.len() - 1] == names.last());
    }
}

// ---------- the reason ----------

/// A phase as the reason names it.
pub open spec fn span_text(p: PhaseView) -> Chars {
    p.label + " "@ + digits(p.start as nat) + "-"@ + digits(p.end as nat)
}

/// The phases as the reason names them.
pub open spec fn span_texts(phases: Seq<PhaseView>) -> Seq<Chars> {
    Seq::new(phases.len(), |i: int| span_text(phases[i]))
}

/// The estimates as the reason names them.
pub open spec fn estimate_texts(phases: Seq<PhaseView>) -> Seq<Chars> {
    Seq::new(
        phases.len(),
        |i: int|
            digits(
                match phases[i].est_cognitive {
                    Some(n) => n as nat,
                    None => 0,
                },
            ),
    )
}

/// What the phases share, in words.
pub open spec fn shared_text(shared: Seq<Chars>, most: usize) -> Chars {
    if shared.len() == 0 {
        "no locals shared"@
    } else {
        let shown = if shared.len() < most {
            shared.len()
        } else {
            most as nat
        };
        digits(shared.len()) + " local"@ + (if shared.len() == 1 {
            Seq::empty()
        } else {
            "s"@
        }) + " shared: "@ + joined(shared.take(shown as int), ", "@) + (if shared.len() > shown {
            ", +"@ + digits((shared.len() - shown) as nat) + " more"@
        } else {
            Seq::empty()
        })
    }
}

/// The line on a unit's phases.
pub open spec fn reason_text(fm: FunctionMetrics, phases: Seq<PhaseView>, shared: Seq<Chars>, p: Phases) -> Chars {
    fm.name@ + " (lines "@ + digits(fm.start_line as nat) + "-"@ + digits(fm.end_line as nat) + ", cognitive "@ + digits(
        fm.cognitive as nat,
    ) + ") already labels "@ + digits(phases.len()) + " phases: "@ + joined(span_texts(phases), ", "@)
        + " — extract each as a helper ("@ + (if p.estimate_cognitive {
        "est. cognitive "@ + joined(estimate_texts(phases), " / "@) + "; "@
    } else {
        Seq::empty()
    }) + shared_text(shared, p.max_shared_locals_named) + ")"@
}

fn text_of_spans(phases: &Vec<Phase>) -> (out: Vec<String>)
    ensures
        out.deep_view() == span_texts(phases.deep_view()),
{
    let ghost view = phases.deep_view();
    let mut out: Vec<String> = Vec::new();
    let mut i: usize = 0;
    while i < phases.len()
        invariant
            i <= phases.len(),
            out.len() == i,
            view == phases.deep_view(),
            forall|k: int| 0 <= k < i ==> (#[trigger] out@[k])@ == span_text(view[k]),
        decreases phases.len() - i,
    {
        let p = &phases[i];
        assert(view[i as int] == p.deep_view());
        let mut o = p.label.as_str().to_owned();
        o.append(" ");
        o.append(decimal(p.start).as_str());
        o.append("-");
        o.append(decimal(p.end).as_str());
        out.push(o);
        i = i + 1;
    }
    assert(out.deep_view() =~= span_texts(view));
    out
}

fn text_of_estimates(phases: &Vec<Phase>) -> (out: Vec<String>)
    ensures
        out.deep_view() == estimate_texts(phases.deep_view()),
{
    let ghost view = phases.deep_view();
    let mut out: Vec<String> = Vec::new();
    let mut i: usize = 0;
    while i < phases.len()
        invariant
            i <= phases.len(),
            out.len() == i,
            view == phases.deep_view(),
            forall|k: int| 0 <= k < i ==> (#[trigger] out@[k])@ == estimate_texts(view)[k],
        decreases phases.len() - i,
    {
        let p = &phases[i];
        assert(view[i as int] == p.deep_view());
        let n: u32 = match p.est_cognitive {
            Some(n) => n,
            None => 0,
        };
        out.push(decimal(n as usize));
        i = i + 1;
    }
    assert(out.deep_view() =~= estimate_texts(view));
    out
}

fn text_of_shared(shared: &Vec<String>, most: usize) -> (o: String)
    ensures
        o@ == shared_text(shared.deep_view(), most),
{
    let n: usize = shared.len();
    let ghost view = shared.deep_view();
    if n == 0 {
        return "no locals shared".to_owned();
    }
    let shown: usize = if n < most {
        n
    } else {
        most
    };
    let mut named: Vec<String> = Vec::new();
    let mut k: usize = 0;
    while k < shown
        invariant
            k <= shown <= shared.len(),
            named.len() == k,
            view == shared.deep_view(),
            forall|j: int| 0 <= j < k ==> (#[trigger] named@[j])@ == view[j],
        decreases shown - k,
    {
        assert(view[k as int] == shared@[k as int]@);
        named.push(shared[k].as_str().to_owned());
        k = k + 1;
    }
    assert(named.deep_view() =~= view.take(shown as int));
    let mut o = decimal(n);
    o.append(" local");
    let mut s = String::new();
    if n != 1 {
        s = "s".to_owned();
    }
    o.append(s.as_str());
    o.append(" shared: ");
    o.append(join(&named, ", ").as_str());
    let mut more = String::new();
    if n > shown {
        more = plus(plus(", +".to_owned(), decimal(n - shown).as_str()), " more");
    }
    o.append(more.as_str());
    o
}

/// The line on a unit's phases.
pub fn phase_reason(fm: &FunctionMetrics, phases: &Vec<Phase>, shared: &Vec<String>, p: &Phases) -> (o: String)
    ensures
        o@ == reason_text(*fm, phases.deep_view(), shared.deep_view(), *p),
{
    let mut o = fm.name.as_str().to_owned();
    o.append(" (lines ");
    o.append(decimal(fm.start_line).as_str());
    o.append("-");
    o.append(decimal(fm.end_line).as_str());
    o.append(", cognitive ");
    o.append(decimal(fm.cognitive as usize).as_str());
    o.append(") already labels ");
    assert(phases.len() == phases.deep_view().len());
    o.append(decimal(phases.len()).as_str());
    o.append(" phases: ");
    o.append(join(&text_of_spans(phases), ", ").as_str());
    o.append(" — extract each as a helper (");
    let mut est = String::new();
    if p.estimate_cognitive {
        est = plus(plus("est. cognitive ".to_owned(), join(&text_of_estimates(phases), " / ").as_str()), "; ");
    }
    o.append(est.as_str());
    o.append(text_of_shared(shared, p.max_shared_locals_named).as_str());
    o.append(")");
    o
}

// ---------- a unit ----------

/// The phases of a unit, where it has enough of them and each is long enough.
pub open spec fn unit_phases(
    t: Nodes,
    unit: int,
    fm: FunctionMetrics,
    lang: Language,
    src: Seq<u8>,
    estimates: Seq<u32>,
    cfg: Comments,
) -> Option<UnitView> {
    let found = phase_comments(t, unit, lang, cfg);
    let spans = spans_of(t, src, found, cfg);
    let binds = binds_of(t, unit, lang, src);
    let reads = reads_of(t, unit, lang, src);
    let phases = estimated(spans, estimates, cfg.phases.estimate_cognitive);
    let shared = shared_of(once_each(binds), phases, binds, reads);
    let all = with_locals(phases, shared, binds, reads);
    if body_of(t, unit, lang) is None || found.len() < cfg.phases.min_phases || !long_enough(
        spans,
        cfg.phases.min_phase_lines,
    ) {
        None
    } else {
        Some(
            UnitView {
                unit: fm.name@,
                start_line: fm.start_line,
                end_line: fm.end_line,
                cognitive: fm.cognitive,
                phases: all,
                shared_locals: shared,
                reason: reason_text(fm, all, shared, cfg.phases),
            },
        )
    }
}

impl<'c> Walker<'c> {
    fn comments_in(&self, t: &SyntaxTree, unit: usize, lang: Language) -> (r: Option<Vec<(usize, usize)>>)
        requires
            self.ok(),
            t.ok(),
            unit < t@.len(),
        ensures
            r is Some <==> body_of(t@, unit as int, lang) is Some,
            r matches Some(found) ==> found@ == phase_comments(t@, unit as int, lang, *self.cfg) && in_tree(t@, found@),
    {
        match t.child(unit, "body") {
            Some(b) => if is_block_kind(lang, t.kind(b)) {
                let mut found: Vec<(usize, usize)> = Vec::new();
                self.collect(t, b, 0, lang, &mut found);
                assert(found@ =~= phase_comments(t@, unit as int, lang, *self.cfg));
                Some(found)
            } else {
                None
            },
            None => None,
        }
    }

    /// The statements of each phase of a unit, in order: what an estimate measures.
    pub fn phase_statements(&self, t: &SyntaxTree, unit: usize, lang: Language, src: &[u8]) -> (out: Vec<Vec<usize>>)
        requires
            self.ok(),
            t.ok(),
            unit < t@.len(),
        ensures
            out.len() == statements_of(t@, unit as int, lang, src@, *self.cfg).len(),
            forall|i: int|
                0 <= i < out.len() ==> (#[trigger] out@[i])@ == statements_of(t@, unit as int, lang, src@, *self.cfg)[i],
    {
        let lines = LineIndex::new(src);
        let mut out: Vec<Vec<usize>> = Vec::new();
        let ghost all = statements_of(t@, unit as int, lang, src@, *self.cfg);
        if let Some(found) = self.comments_in(t, unit, lang) {
            let spans = self.spans(t, src, &lines, &found);
            let ghost view = spans.deep_view();
            assert(view.len() == spans.len());
            assert(view.len() == spans_of(t@, src@, found@, *self.cfg).len());
            let mut i: usize = 0;
            while i < found.len()
                invariant
                    i <= found.len() == spans.len(),
                    out.len() == i,
                    self.ok(),
                    t.ok(),
                    lines@ == src@,
                    in_tree(t@, found@),
                    found@ == phase_comments(t@, unit as int, lang, *self.cfg),
                    view == spans.deep_view(),
                    forall|k: int|
                        0 <= k < spans.len() ==> (#[trigger] spans@[k]).start == line_at(
                            src@,
                            t@[found@[k].0 as int].start as int,
                        ) && spans@[k].end == phase_end(t@, src@, found@, k),
                    all == statements_of(t@, unit as int, lang, src@, *self.cfg),
                    forall|k: int| 0 <= k < i ==> (#[trigger] out@[k])@ == all[k],
                decreases found.len() - i,
            {
                let parent: usize = found[i].1;
                assert(found@[i as int].0 < t@.len());
                assert(view[i as int] == spans@[i as int].deep_view());
                out.push(statements_in(t, parent, lang, &lines, spans[i].start, spans[i].end));
                i = i + 1;
            }
        }
        out
    }

    /// The phases of one unit, and how many phase comments it has; `estimates` holds the complexity
    /// of each phase's statements with nesting re-based to 0, in the order of the phases.
    pub fn phases(
        &self,
        t: &SyntaxTree,
        unit: usize,
        fm: &FunctionMetrics,
        lang: Language,
        src: &[u8],
        lines: &LineIndex,
        estimates: &Vec<u32>,
    ) -> (r: (usize, Option<UnitPhases>))
        requires
            self.ok(),
            t.ok(),
            unit < t@.len(),
            lines@ == src@,
        ensures
            r.0 == phase_comments(t@, unit as int, lang, *self.cfg).len(),
            r.1.deep_view() == unit_phases(t@, unit as int, *fm, lang, src@, estimates@, *self.cfg),
    {
        let p = &self.cfg.phases;
        let found = match self.comments_in(t, unit, lang) {
            Some(found) => found,
            None => {
                return (0, None);
            },
        };
        let n: usize = found.len();
        if n < p.min_phases {
            return (n, None);
        }
        let spans = self.spans(t, src, lines, &found);
        if !all_long(&spans, p.min_phase_lines) {
            return (n, None);
        }
        let phases = estimate(spans, estimates, p.estimate_cognitive);
        let (shared, phases) = shared_locals(t, unit, lang, lines, phases);
        let reason = phase_reason(fm, &phases, &shared, p);
        let unit = UnitPhases {
            unit: fm.name.as_str().to_owned(),
            start_line: fm.start_line,
            end_line: fm.end_line,
            cognitive: fm.cognitive,
            phases,
            shared_locals: shared,
            reason,
        };
        (n, Some(unit))
    }
}

} // verus!
