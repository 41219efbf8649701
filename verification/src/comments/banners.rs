//! Banners at the file root, and the sections they cut a file into.

use vstd::prelude::*;

use crate::comments::kinds::{
    comment_kind, comment_text, doc_comment, has_word, import_kind, is_comment_kind, is_doc_comment, is_import_kind, strip_comment,
    wordy_text,
};
use crate::comments::lines::{line_at, line_count, newlines, LineIndex};
use crate::comments::titles::{is_skipped, skipped, title_of, Walker};
use crate::config::Banners;
use crate::lang::Language;
use crate::text::{capped_size, put, trim, trimmed, Chars};
use crate::tree::{in_source_order, Nodes, SyntaxTree};
use crate::units::FunctionMetrics;

verus! {

/// One labelled section of a file: the lines between its banner and the next one.
pub struct Section {
    /// The banner's title (inline on the rule, or the comment line between a rule pair).
    pub name: String,
    /// First line after the banner…
    pub start: usize,
    /// …to the line before the next banner (or the end of the file).
    pub end: usize,
    pub lines: usize,
    /// Units whose start line lies in the section.
    pub functions: usize,
}

/// A [`Section`] by its contents.
pub struct SectionView {
    pub name: Chars,
    pub start: nat,
    pub end: nat,
    pub lines: nat,
    pub functions: nat,
}

impl DeepView for Section {
    type V = SectionView;

    open spec fn deep_view(&self) -> SectionView {
        SectionView {
            name: self.name@,
            start: self.start as nat,
            end: self.end as nat,
            lines: self.lines as nat,
            functions: self.functions as nat,
        }
    }
}

/// A comment at the file root.
pub struct TopComment {
    pub start: usize,
    pub end: usize,
    pub text: String,
    /// A title when the comment is a banner, none of its own for a bare rule.
    pub banner: Option<Option<String>>,
}

/// A [`TopComment`] by its contents.
pub struct TopView {
    pub start: nat,
    pub end: nat,
    pub text: Chars,
    pub banner: Option<Option<Chars>>,
}

impl DeepView for TopComment {
    type V = TopView;

    open spec fn deep_view(&self) -> TopView {
        TopView { start: self.start as nat, end: self.end as nat, text: self.text@, banner: self.banner.deep_view() }
    }
}

/// The first line of another item at the file root.
pub struct TopItem {
    pub line: usize,
    pub import: bool,
}

/// A [`TopItem`] by its contents.
pub struct ItemView {
    pub line: nat,
    pub import: bool,
}

impl DeepView for TopItem {
    type V = ItemView;

    open spec fn deep_view(&self) -> ItemView {
        ItemView { line: self.line as nat, import: self.import }
    }
}

/// The byte before `end`.
pub open spec fn last_byte(end: usize) -> int {
    if end == 0 {
        0
    } else {
        end - 1
    }
}

/// The comment at a node.
pub open spec fn top_comment(t: Nodes, i: int, src: Seq<u8>, b: Banners) -> TopView {
    let text = comment_text(t[i].text);
    TopView {
        start: line_at(src, t[i].start as int),
        end: line_at(src, last_byte(t[i].end)),
        text,
        banner: title_of(b, text),
    }
}

/// The comments among `kids`, in order, banner or not; documentation aside.
pub open spec fn top_comments(t: Nodes, kids: Seq<usize>, lang: Language, src: Seq<u8>, b: Banners) -> Seq<TopView>
    decreases kids.len(),
{
    if kids.len() == 0 {
        Seq::empty()
    } else {
        let rest = top_comments(t, kids.drop_last(), lang, src, b);
        let i = kids.last() as int;
        if comment_kind(lang, t[i].kind) && !doc_comment(t, i) {
            rest.push(top_comment(t, i, src, b))
        } else {
            rest
        }
    }
}

/// The other items among `kids`, in order.
pub open spec fn top_items(t: Nodes, kids: Seq<usize>, lang: Language, src: Seq<u8>) -> Seq<ItemView>
    decreases kids.len(),
{
    if kids.len() == 0 {
        Seq::empty()
    } else {
        let rest = top_items(t, kids.drop_last(), lang, src);
        let i = kids.last() as int;
        if !comment_kind(lang, t[i].kind) && t[i].named {
            rest.push((ItemView { line: line_at(src, t[i].start as int), import: import_kind(lang, t[i].kind) }))
        } else {
            rest
        }
    }
}

fn top_level(w: &Walker, t: &SyntaxTree, lang: Language, lines: &LineIndex) -> (r: (Vec<TopComment>, Vec<TopItem>))
    requires
        w.ok(),
        t.ok(),
        t@.len() > 0,
    ensures
        r.0.deep_view() == top_comments(t@, t@[0].children, lang, lines@, w.cfg.banners),
        r.1.deep_view() == top_items(t@, t@[0].children, lang, lines@),
{
    let kids = &t.nodes[0].children;
    assert(t@[0] == t.nodes@[0].deep_view());
    assert(crate::tree::node_ok(t@, 0));
    let ghost view = kids@;
    let mut comments: Vec<TopComment> = Vec::new();
    let mut items: Vec<TopItem> = Vec::new();
    let mut k: usize = 0;
    assert(view.take(0) =~= Seq::<usize>::empty());
    assert(comments.deep_view() =~= Seq::<TopView>::empty());
    assert(items.deep_view() =~= Seq::<ItemView>::empty());
    while k < kids.len()
        invariant
            k <= kids.len(),
            w.ok(),
            t.ok(),
            t@.len() > 0,
            view == kids@,
            view == t@[0].children,
            crate::tree::node_ok(t@, 0),
            comments.deep_view() == top_comments(t@, view.take(k as int), lang, lines@, w.cfg.banners),
            items.deep_view() == top_items(t@, view.take(k as int), lang, lines@),
        decreases kids.len() - k,
    {
        assert(view.take(k + 1).drop_last() =~= view.take(k as int));
        assert(0 < t@[0].children[k as int] < t@.len());
        let i: usize = kids[k];
        assert(t@[i as int] == t.nodes@[i as int].deep_view());
        let n = &t.nodes[i];
        if is_comment_kind(lang, n.kind.as_str()) {
            if !is_doc_comment(t, i) {
                let text = strip_comment(n.text.as_str());
                let banner = w.banner_title(text.as_str());
                let last: usize = if n.end == 0 {
                    0
                } else {
                    n.end - 1
                };
                put(
                    &mut comments,
                    TopComment { start: lines.line_of(n.start), end: lines.line_of(last), text, banner },
                );
            }
        } else if n.named {
            put(
                &mut items,
                TopItem { line: lines.line_of(n.start), import: is_import_kind(lang, n.kind.as_str()) },
            );
        }
        k = k + 1;
    }
    assert(view.take(view.len() as int) =~= view);
    (comments, items)
}

/// How many of the comments are banners.
pub open spec fn banner_count(tops: Seq<TopView>) -> nat
    decreases tops.len(),
{
    if tops.len() == 0 {
        0
    } else {
        banner_count(tops.drop_last()) + (if tops.last().banner is Some {
            1nat
        } else {
            0
        })
    }
}

fn count_banners(tops: &Vec<TopComment>) -> (n: usize)
    ensures
        n == banner_count(tops.deep_view()),
{
    let ghost view = tops.deep_view();
    let mut n: usize = 0;
    let mut k: usize = 0;
    assert(view.take(0) =~= Seq::<TopView>::empty());
    while k < tops.len()
        invariant
            k <= tops.len(),
            n <= k,
            view == tops.deep_view(),
            n == banner_count(view.take(k as int)),
        decreases tops.len() - k,
    {
        assert(view.take(k + 1).drop_last() =~= view.take(k as int));
        assert(view[k as int] == tops@[k as int].deep_view());
        if tops[k].banner.is_some() {
            n = n + 1;
        }
        k = k + 1;
    }
    assert(view.take(view.len() as int) =~= view);
    n
}

// ---------- boundaries ----------

/// One banner, or a pair of rules with its title between them.
pub struct Boundary {
    pub first_line: usize,
    pub last_line: usize,
    pub first_index: usize,
    pub last_index: usize,
    pub title: Option<String>,
}

/// A [`Boundary`] by its contents.
pub struct BoundaryView {
    pub first_line: nat,
    pub last_line: nat,
    pub first_index: nat,
    pub last_index: nat,
    pub title: Option<Chars>,
}

impl DeepView for Boundary {
    type V = BoundaryView;

    open spec fn deep_view(&self) -> BoundaryView {
        BoundaryView {
            first_line: self.first_line as nat,
            last_line: self.last_line as nat,
            first_index: self.first_index as nat,
            last_index: self.last_index as nat,
            title: self.title.deep_view(),
        }
    }
}

/// Some item starts strictly between two lines.
pub open spec fn item_between(items: Seq<ItemView>, from: nat, to: nat) -> bool {
    exists|k: int| 0 <= k < items.len() && from < (#[trigger] items[k]).line < to
}

fn has_item_between(items: &Vec<TopItem>, from: usize, to: usize) -> (r: bool)
    ensures
        r == item_between(items.deep_view(), from as nat, to as nat),
{
    let ghost view = items.deep_view();
    let mut k: usize = 0;
    while k < items.len()
        invariant
            k <= items.len(),
            view == items.deep_view(),
            forall|j: int| 0 <= j < k ==> !(from < (#[trigger] view[j]).line < to),
        decreases items.len() - k,
    {
        assert(view[k as int] == items@[k as int].deep_view());
        if from < items[k].line && items[k].line < to {
            return true;
        }
        k = k + 1;
    }
    false
}

/// Banners within `gap` lines merge into one boundary when only comments lie between them (a pair
/// encloses its title, never code).
pub open spec fn joins(last: BoundaryView, c: TopView, items: Seq<ItemView>, gap: usize) -> bool {
    c.start <= last.last_line + gap && !item_between(items, last.last_line, c.start)
}

/// The boundaries the banners make.
pub open spec fn merged(tops: Seq<TopView>, items: Seq<ItemView>, gap: usize) -> Seq<BoundaryView>
    decreases tops.len(),
{
    if tops.len() == 0 {
        Seq::empty()
    } else {
        let rest = merged(tops.drop_last(), items, gap);
        let c = tops.last();
        let i = (tops.len() - 1) as nat;
        match c.banner {
            None => rest,
            Some(inline) => if rest.len() > 0 && joins(rest.last(), c, items, gap) {
                rest.drop_last().push(
                    (BoundaryView {
                        last_line: c.end,
                        last_index: i,
                        title: match rest.last().title {
                            Some(t) => Some(t),
                            None => inline,
                        },
                        ..rest.last()
                    }),
                )
            } else {
                rest.push(
                    (BoundaryView { first_line: c.start, last_line: c.end, first_index: i, last_index: i, title: inline }),
                )
            },
        }
    }
}

/// Every boundary lies within the comments, and starts on a line.
pub open spec fn placed(bds: Seq<BoundaryView>, tops: Seq<TopView>) -> bool {
    forall|k: int|
        0 <= k < bds.len() ==> (#[trigger] bds[k]).first_index <= bds[k].last_index < tops.len() && 1 <= bds[k].first_line
}

fn merge(tops: &Vec<TopComment>, items: &Vec<TopItem>, gap: usize) -> (out: Vec<Boundary>)
    requires
        forall|k: int| 0 <= k < tops@.len() ==> 1 <= (#[trigger] tops@[k]).start,
    ensures
        out.deep_view() == merged(tops.deep_view(), items.deep_view(), gap),
        placed(out.deep_view(), tops.deep_view()),
{
    let ghost view = tops.deep_view();
    let ghost its = items.deep_view();
    let mut out: Vec<Boundary> = Vec::new();
    let mut k: usize = 0;
    assert(view.take(0) =~= Seq::<TopView>::empty());
    assert(out.deep_view() =~= Seq::<BoundaryView>::empty());
    while k < tops.len()
        invariant
            k <= tops.len(),
            view == tops.deep_view(),
            its == items.deep_view(),
            forall|j: int| 0 <= j < tops@.len() ==> 1 <= (#[trigger] tops@[j]).start,
            out.deep_view() == merged(view.take(k as int), its, gap),
            placed(out.deep_view(), view.take(k as int)),
        decreases tops.len() - k,
    {
        assert(view.take(k + 1).drop_last() =~= view.take(k as int));
        let c = &tops[k];
        assert(view[k as int] == c.deep_view());
        let ghost was = out.deep_view();
        match &c.banner {
            None => {},
            Some(inline) => {
                let n: usize = out.len();
                let pair = if n > 0 {
                    assert(was.last() == out@[n - 1].deep_view());
                    let last: usize = out[n - 1].last_line;
                    c.start <= last.saturating_add(gap) && !has_item_between(items, last, c.start)
                } else {
                    false
                };
                let title = match inline {
                    Some(t) => Some(t.as_str().to_owned()),
                    None => None,
                };
                assert(title.deep_view() == inline.deep_view());
                if pair {
                    let last = out.pop();
                    if let Some(last) = last {
                        assert(out.deep_view() =~= was.drop_last());
                        assert(was[n - 1].first_index <= was[n - 1].last_index);
                        let title = match last.title {
                            Some(t) => Some(t),
                            None => title,
                        };
                        put(
                            &mut out,
                            Boundary {
                                first_line: last.first_line,
                                last_line: c.end,
                                first_index: last.first_index,
                                last_index: k,
                                title,
                            },
                        );
                    }
                } else {
                    put(
                        &mut out,
                        Boundary { first_line: c.start, last_line: c.end, first_index: k, last_index: k, title },
                    );
                }
            },
        }
        proof {
            let now = out.deep_view();
            assert forall|j: int| 0 <= j < now.len() implies (#[trigger] now[j]).first_index <= now[j].last_index
                < view.take(k + 1).len() && 1 <= now[j].first_line by {
                if j < was.len() {
                    assert(was[j].first_index <= was[j].last_index);
                }
            }
        }
        k = k + 1;
    }
    assert(view.take(view.len() as int) =~= view);
    out
}

/// The first comment from `k` to `end` that is no banner and says something.
pub open spec fn title_between(tops: Seq<TopView>, markers: Seq<Chars>, k: int, end: int) -> Option<Chars>
    decreases end + 1 - k,
{
    if k < 0 || k > end || k >= tops.len() {
        None
    } else {
        let text = trimmed(tops[k].text);
        if tops[k].banner is None && wordy_text(text) && !skipped(text, markers) {
            Some(text)
        } else {
            title_between(tops, markers, k + 1, end)
        }
    }
}

/// A boundary with the title that stands within it.
pub open spec fn entitled(bd: BoundaryView, tops: Seq<TopView>, markers: Seq<Chars>) -> BoundaryView {
    BoundaryView {
        title: match bd.title {
            Some(t) => Some(t),
            None => title_between(tops, markers, bd.first_index as int, bd.last_index as int),
        },
        ..bd
    }
}

fn find_title(tops: &Vec<TopComment>, markers: &Vec<String>, from: usize, end: usize) -> (r: Option<String>)
    requires
        from <= end < tops.len(),
    ensures
        r.deep_view() == title_between(tops.deep_view(), markers.deep_view(), from as int, end as int),
{
    let ghost view = tops.deep_view();
    let ghost ms = markers.deep_view();
    let mut k: usize = from;
    while k <= end
        invariant
            from <= k <= end + 1 <= tops.len(),
            view == tops.deep_view(),
            ms == markers.deep_view(),
            title_between(view, ms, from as int, end as int) == title_between(view, ms, k as int, end as int),
        decreases end + 1 - k,
    {
        assert(view[k as int] == tops@[k as int].deep_view());
        if tops[k].banner.is_none() {
            let text = trim(tops[k].text.as_str());
            if has_word(text.as_str()) && !is_skipped(text.as_str(), markers) {
                return Some(text);
            }
        }
        k = k + 1;
    }
    None
}

/// The boundaries with their titles; without those that have none, where a title is required.
pub open spec fn entitled_all(
    bds: Seq<BoundaryView>,
    tops: Seq<TopView>,
    markers: Seq<Chars>,
    require: bool,
) -> Seq<BoundaryView>
    decreases bds.len(),
{
    if bds.len() == 0 {
        Seq::empty()
    } else {
        let rest = entitled_all(bds.drop_last(), tops, markers, require);
        let bd = entitled(bds.last(), tops, markers);
        if require && bd.title is None {
            rest
        } else {
            rest.push(bd)
        }
    }
}

fn entitle(bds: Vec<Boundary>, tops: &Vec<TopComment>, markers: &Vec<String>, require: bool) -> (out: Vec<Boundary>)
    requires
        placed(bds.deep_view(), tops.deep_view()),
    ensures
        out.deep_view() == entitled_all(bds.deep_view(), tops.deep_view(), markers.deep_view(), require),
        placed(out.deep_view(), tops.deep_view()),
{
    let ghost view = bds.deep_view();
    let ghost ts = tops.deep_view();
    let ghost ms = markers.deep_view();
    let mut out: Vec<Boundary> = Vec::new();
    let mut k: usize = 0;
    assert(view.take(0) =~= Seq::<BoundaryView>::empty());
    assert(out.deep_view() =~= Seq::<BoundaryView>::empty());
    while k < bds.len()
        invariant
            k <= bds.len(),
            view == bds.deep_view(),
            ts == tops.deep_view(),
            ms == markers.deep_view(),
            placed(view, ts),
            placed(out.deep_view(), ts),
            out.deep_view() == entitled_all(view.take(k as int), ts, ms, require),
        decreases bds.len() - k,
    {
        assert(view.take(k + 1).drop_last() =~= view.take(k as int));
        let bd = &bds[k];
        assert(view[k as int] == bd.deep_view());
        let title = match &bd.title {
            Some(t) => Some(t.as_str().to_owned()),
            None => find_title(tops, markers, bd.first_index, bd.last_index),
        };
        let ghost was = out.deep_view();
        if !(require && title.is_none()) {
            put(
                &mut out,
                Boundary {
                    first_line: bd.first_line,
                    last_line: bd.last_line,
                    first_index: bd.first_index,
                    last_index: bd.last_index,
                    title,
                },
            );
        }
        proof {
            let now = out.deep_view();
            assert forall|j: int| 0 <= j < now.len() implies (#[trigger] now[j]).first_index <= now[j].last_index
                < ts.len() && 1 <= now[j].first_line by {
                if j < was.len() {
                    assert(was[j].first_index <= was[j].last_index);
                }
            }
        }
        k = k + 1;
    }
    assert(view.take(view.len() as int) =~= view);
    out
}

/// The first item from `k` on that starts after a line.
pub open spec fn item_after(items: Seq<ItemView>, line: nat, k: int) -> Option<ItemView>
    decreases items.len() - k,
{
    if k < 0 || k >= items.len() {
        None
    } else if items[k].line > line {
        Some(items[k])
    } else {
        item_after(items, line, k + 1)
    }
}

fn next_item(items: &Vec<TopItem>, line: usize) -> (r: Option<&TopItem>)
    ensures
        r.deep_view() == item_after(items.deep_view(), line as nat, 0),
{
    let ghost view = items.deep_view();
    let mut k: usize = 0;
    while k < items.len()
        invariant
            k <= items.len(),
            view == items.deep_view(),
            item_after(view, line as nat, 0) == item_after(view, line as nat, k as int),
        decreases items.len() - k,
    {
        assert(view[k as int] == items@[k as int].deep_view());
        if items[k].line > line {
            return Some(&items[k]);
        }
        k = k + 1;
    }
    None
}

/// A boundary at the top of the file followed by an import is a license or file header.
pub open spec fn header(bd: BoundaryView, items: Seq<ItemView>) -> bool {
    bd.first_line <= 3 && (item_after(items, bd.last_line, 0) matches Some(i) && i.import)
}

/// The closing rule of a header: no item stands between them.
pub open spec fn closes(bd: BoundaryView, next: BoundaryView, items: Seq<ItemView>) -> bool {
    item_after(items, bd.last_line, 0) matches Some(i) && i.line > next.last_line
}

/// The boundaries from `i` on without headers and their closing rules; `skip` where the one at
/// `i` closes a header.
pub open spec fn headless(bds: Seq<BoundaryView>, items: Seq<ItemView>, i: int, skip: bool) -> Seq<BoundaryView>
    decreases bds.len() - i,
{
    if i < 0 || i >= bds.len() {
        Seq::empty()
    } else if skip {
        headless(bds, items, i + 1, false)
    } else if header(bds[i], items) {
        headless(bds, items, i + 1, i + 1 < bds.len() && closes(bds[i], bds[i + 1], items))
    } else {
        seq![bds[i]] + headless(bds, items, i + 1, false)
    }
}

fn copy_boundary(bd: &Boundary) -> (r: Boundary)
    ensures
        r.deep_view() == bd.deep_view(),
{
    Boundary {
        first_line: bd.first_line,
        last_line: bd.last_line,
        first_index: bd.first_index,
        last_index: bd.last_index,
        title: match &bd.title {
            Some(t) => Some(t.as_str().to_owned()),
            None => None,
        },
    }
}

fn drop_headers(bds: &Vec<Boundary>, items: &Vec<TopItem>, Ghost(tops): Ghost<Seq<TopView>>) -> (out: Vec<Boundary>)
    requires
        placed(bds.deep_view(), tops),
    ensures
        out.deep_view() == headless(bds.deep_view(), items.deep_view(), 0, false),
        placed(out.deep_view(), tops),
{
    let ghost view = bds.deep_view();
    let ghost its = items.deep_view();
    let mut out: Vec<Boundary> = Vec::new();
    let mut skip: bool = false;
    let mut i: usize = 0;
    assert(out.deep_view() + headless(view, its, 0, false) =~= headless(view, its, 0, false));
    while i < bds.len()
        invariant
            i <= bds.len(),
            view == bds.deep_view(),
            its == items.deep_view(),
            placed(view, tops),
            placed(out.deep_view(), tops),
            headless(view, its, 0, false) == out.deep_view() + headless(view, its, i as int, skip),
        decreases bds.len() - i,
    {
        let bd = &bds[i];
        assert(view[i as int] == bd.deep_view());
        let ghost was = out.deep_view();
        if skip {
            skip = false;
        } else {
            let next = next_item(items, bd.last_line);
            let import = match next {
                Some(n) => n.import,
                None => false,
            };
            if bd.first_line <= 3 && import {
                if i + 1 < bds.len() {
                    assert(view[i + 1] == bds@[i + 1].deep_view());
                    skip = match next {
                        Some(n) => n.line > bds[i + 1].last_line,
                        None => false,
                    };
                }
            } else {
                put(&mut out, copy_boundary(bd));
                let ghost rest = headless(view, its, i + 1, false);
                assert(was + (seq![view[i as int]] + rest) =~= out.deep_view() + rest);
                proof {
                    let now = out.deep_view();
                    assert forall|j: int| 0 <= j < now.len() implies (#[trigger] now[j]).first_index
                        <= now[j].last_index < tops.len() && 1 <= now[j].first_line by {
                        if j < was.len() {
                            assert(was[j].first_index <= was[j].last_index);
                        }
                    }
                }
            }
        }
        i = i + 1;
    }
    assert(out.deep_view() + Seq::<BoundaryView>::empty() =~= out.deep_view());
    out
}

// ---------- sections ----------

/// Units outside tests that start after one line and not after another.
pub open spec fn units_between(funcs: Seq<FunctionMetrics>, after: nat, end: nat) -> nat
    decreases funcs.len(),
{
    if funcs.len() == 0 {
        0
    } else {
        units_between(funcs.drop_last(), after, end) + (if !funcs.last().in_test && after < funcs.last().start_line
            <= end {
            1nat
        } else {
            0
        })
    }
}

fn count_units(funcs: &Vec<FunctionMetrics>, after: usize, end: usize) -> (n: usize)
    ensures
        n == units_between(funcs@, after as nat, end as nat),
{
    let mut n: usize = 0;
    let mut k: usize = 0;
    assert(funcs@.take(0) =~= Seq::<FunctionMetrics>::empty());
    while k < funcs.len()
        invariant
            k <= funcs.len(),
            n <= k,
            n == units_between(funcs@.take(k as int), after as nat, end as nat),
        decreases funcs.len() - k,
    {
        assert(funcs@.take(k + 1).drop_last() =~= funcs@.take(k as int));
        if !funcs[k].in_test && after < funcs[k].start_line && funcs[k].start_line <= end {
            n = n + 1;
        }
        k = k + 1;
    }
    assert(funcs@.take(funcs@.len() as int) =~= funcs@);
    n
}

/// Where the section after a boundary ends: before the next one, or with the file.
pub open spec fn section_end(bds: Seq<BoundaryView>, i: int, total: nat) -> nat {
    let end = if i + 1 < bds.len() {
        bds[i + 1].first_line - 1
    } else {
        total as int
    };
    if end < bds[i].last_line {
        bds[i].last_line
    } else {
        end as nat
    }
}

/// The section after a boundary.
pub open spec fn section_at(bds: Seq<BoundaryView>, i: int, total: nat, funcs: Seq<FunctionMetrics>) -> SectionView {
    let end = section_end(bds, i, total);
    SectionView {
        name: match bds[i].title {
            Some(t) => t,
            None => Seq::empty(),
        },
        start: capped_size(bds[i].last_line + 1) as nat,
        end,
        lines: (end - bds[i].last_line) as nat,
        functions: units_between(funcs, bds[i].last_line, end),
    }
}

fn sections_after(
    bds: &Vec<Boundary>,
    total: usize,
    funcs: &Vec<FunctionMetrics>,
    Ghost(tops): Ghost<Seq<TopView>>,
) -> (out: Vec<Section>)
    requires
        placed(bds.deep_view(), tops),
    ensures
        out.deep_view() == Seq::new(
            bds.deep_view().len(),
            |i: int| section_at(bds.deep_view(), i, total as nat, funcs@),
        ),
{
    let ghost view = bds.deep_view();
    let mut out: Vec<Section> = Vec::new();
    let mut i: usize = 0;
    while i < bds.len()
        invariant
            i <= bds.len(),
            out.len() == i,
            view == bds.deep_view(),
            placed(view, tops),
            forall|k: int| 0 <= k < i ==> (#[trigger] out@[k]).deep_view() == section_at(view, k, total as nat, funcs@),
        decreases bds.len() - i,
    {
        let bd = &bds[i];
        assert(view[i as int] == bd.deep_view());
        let next: usize = if i + 1 < bds.len() {
            assert(view[i + 1] == bds@[i + 1].deep_view());
            assert(1 <= view[i + 1].first_line);
            bds[i + 1].first_line - 1
        } else {
            total
        };
        let end: usize = if next < bd.last_line {
            bd.last_line
        } else {
            next
        };
        let name = match &bd.title {
            Some(t) => t.as_str().to_owned(),
            None => String::new(),
        };
        out.push(
            Section {
                name,
                start: bd.last_line.saturating_add(1),
                end,
                lines: end - bd.last_line,
                functions: count_units(funcs, bd.last_line, end),
            },
        );
        i = i + 1;
    }
    assert(out.deep_view() =~= Seq::new(view.len(), |i: int| section_at(view, i, total as nat, funcs@)));
    out
}

/// The boundaries of a file.
pub open spec fn boundaries_of(t: Nodes, lang: Language, src: Seq<u8>, b: Banners) -> Seq<BoundaryView> {
    let tops = top_comments(t, t[0].children, lang, src, b);
    let items = top_items(t, t[0].children, lang, src);
    let bds = entitled_all(merged(tops, items, b.pair_gap), tops, b.skip_markers.deep_view(), b.require_title);
    if b.skip_top_of_file {
        headless(bds, items, 0, false)
    } else {
        bds
    }
}

/// The sections of a file.
pub open spec fn sections_of(
    t: Nodes,
    lang: Language,
    src: Seq<u8>,
    funcs: Seq<FunctionMetrics>,
    b: Banners,
) -> Seq<SectionView> {
    let bds = boundaries_of(t, lang, src, b);
    Seq::new(bds.len(), |i: int| section_at(bds, i, line_count(src), funcs))
}

impl<'c> Walker<'c> {
    /// How many banners stand at the root of a file, and the sections they cut it into.
    pub fn banners(
        &self,
        t: &SyntaxTree,
        lang: Language,
        lines: &LineIndex,
        funcs: &Vec<FunctionMetrics>,
    ) -> (r: (usize, Vec<Section>))
        requires
            self.ok(),
            t.ok(),
            t@.len() > 0,
        ensures
            r.0 == banner_count(top_comments(t@, t@[0].children, lang, lines@, self.cfg.banners)),
            r.1.deep_view() == sections_of(t@, lang, lines@, funcs@, self.cfg.banners),
    {
        let b = &self.cfg.banners;
        let (tops, items) = top_level(self, t, lang, lines);
        let ghost ts = tops.deep_view();
        proof {
            comments_start_on_lines(t@, t@[0].children, lang, lines@, *b);
            assert forall|k: int| 0 <= k < tops@.len() implies 1 <= (#[trigger] tops@[k]).start by {
                assert(ts[k] == tops@[k].deep_view());
            }
        }
        let n = count_banners(&tops);
        let bds = merge(&tops, &items, b.pair_gap);
        let bds = entitle(bds, &tops, &b.skip_markers, b.require_title);
        let bds = if b.skip_top_of_file {
            drop_headers(&bds, &items, Ghost(ts))
        } else {
            bds
        };
        let out = sections_after(&bds, lines.count(), funcs, Ghost(ts));
        (n, out)
    }
}

proof fn comments_start_on_lines(t: Nodes, kids: Seq<usize>, lang: Language, src: Seq<u8>, b: Banners)
    ensures
        forall|k: int| 0 <= k < top_comments(t, kids, lang, src, b).len() ==> 1 <= (#[trigger] top_comments(t, kids, lang, src, b)[k]).start,
    decreases kids.len(),
{
    if kids.len() > 0 {
        comments_start_on_lines(t, kids.drop_last(), lang, src, b);
    }
}

// ---------- laws ----------

/// Nodes follow one another in the source, and the comments among them are not empty.
pub open spec fn in_sequence(t: Nodes, kids: Seq<usize>, lang: Language) -> bool {
    &&& forall|a: int| 0 <= a < kids.len() ==> t[#[trigger] kids[a] as int].start <= t[kids[a] as int].end
    &&& forall|a: int|
        0 <= a < kids.len() && comment_kind(lang, t[kids[a] as int].kind) ==> t[#[trigger] kids[a] as int].start
            < t[kids[a] as int].end
    &&& forall|a: int, b: int|
        0 <= a < b < kids.len() ==> t[#[trigger] kids[a] as int].end <= t[#[trigger] kids[b] as int].start
}

/// Comments follow one another.
spec fn tops_in_order(tops: Seq<TopView>) -> bool {
    &&& forall|a: int| 0 <= a < tops.len() ==> (#[trigger] tops[a]).start <= tops[a].end
    &&& forall|a: int, b: int| 0 <= a < b < tops.len() ==> (#[trigger] tops[a]).end <= (#[trigger] tops[b]).start
}

/// Boundaries follow one another, on lines of their own.
pub open spec fn apart(bds: Seq<BoundaryView>) -> bool {
    &&& forall|a: int| 0 <= a < bds.len() ==> (#[trigger] bds[a]).first_line <= bds[a].last_line
    &&& forall|a: int, b: int|
        0 <= a < b < bds.len() ==> (#[trigger] bds[a]).last_line < (#[trigger] bds[b]).first_line
}

proof fn newlines_grow(src: Seq<u8>, a: int, b: int)
    requires
        a <= b,
    ensures
        newlines(src, a) <= newlines(src, b),
    decreases b - a,
{
    if a < b {
        newlines_grow(src, a, b - 1);
    }
}

proof fn newlines_bounded(src: Seq<u8>, n: int)
    requires
        0 <= n,
    ensures
        newlines(src, n) <= n,
    decreases n,
{
    if n > 0 {
        newlines_bounded(src, n - 1);
    }
}

proof fn lines_grow(src: Seq<u8>, a: int, b: int)
    requires
        a <= b,
    ensures
        line_at(src, a) <= line_at(src, b),
{
    newlines_grow(
        src,
        if a < src.len() {
            a
        } else {
            src.len() as int
        },
        if b < src.len() {
            b
        } else {
            src.len() as int
        },
    );
}

proof fn comments_follow(t: Nodes, kids: Seq<usize>, lang: Language, src: Seq<u8>, b: Banners)
    requires
        in_sequence(t, kids, lang),
    ensures
        tops_in_order(top_comments(t, kids, lang, src, b)),
        forall|k: int|
            0 <= k < top_comments(t, kids, lang, src, b).len() ==> kids.len() > 0 && (#[trigger] top_comments(
                t,
                kids,
                lang,
                src,
                b,
            )[k]).end <= line_at(src, t[kids.last() as int].end - 1),
    decreases kids.len(),
{
    if kids.len() > 0 {
        let less = kids.drop_last();
        assert forall|a: int| 0 <= a < less.len() implies t[#[trigger] less[a] as int].start <= t[less[a] as int].end by {
            assert(less[a] == kids[a]);
        }
        assert forall|a: int| 0 <= a < less.len() && comment_kind(lang, t[less[a] as int].kind) implies t[#[trigger] less[a] as int].start
            < t[less[a] as int].end by {
            assert(less[a] == kids[a]);
        }
        assert forall|a: int, c: int| 0 <= a < c < less.len() implies t[#[trigger] less[a] as int].end
            <= t[#[trigger] less[c] as int].start by {
            assert(less[a] == kids[a] && less[c] == kids[c]);
        }
        comments_follow(t, less, lang, src, b);
        let rest = top_comments(t, less, lang, src, b);
        let all = top_comments(t, kids, lang, src, b);
        let i = kids.last() as int;
        assert(kids[kids.len() - 1] == kids.last());
        if comment_kind(lang, t[i].kind) {
            assert(t[i].start < t[i].end);
            lines_grow(src, t[i].start as int, t[i].end - 1);
        }
        assert forall|k: int| 0 <= k < rest.len() implies (#[trigger] rest[k]).end <= line_at(src, t[i].end - 1) by {
            assert(rest[k].end <= line_at(src, t[less.last() as int].end - 1));
            assert(less.last() == kids[kids.len() - 2]);
            assert(t[kids[kids.len() - 2] as int].end <= t[kids[kids.len() - 1] as int].start);
            lines_grow(src, t[less.last() as int].end - 1, t[i].end - 1);
        }
        assert forall|k: int| 0 <= k < rest.len() implies (#[trigger] rest[k]).end <= line_at(src, t[i].start as int)
            by {
            assert(rest[k].end <= line_at(src, t[less.last() as int].end - 1));
            assert(less.last() == kids[kids.len() - 2]);
            assert(t[kids[kids.len() - 2] as int].end <= t[kids[kids.len() - 1] as int].start);
            lines_grow(src, t[less.last() as int].end - 1, t[i].start as int);
        }
        assert forall|a: int, c: int| 0 <= a < c < all.len() implies (#[trigger] all[a]).end <= (#[trigger] all[c]).start
            by {
            assert(all[a] == rest[a]);
            if c < rest.len() {
                assert(all[c] == rest[c]);
            }
        }
        assert forall|k: int| 0 <= k < all.len() implies (#[trigger] all[k]).end <= line_at(src, t[i].end - 1) by {
            if k < rest.len() {
                assert(all[k] == rest[k]);
            }
        }
        assert forall|a: int| 0 <= a < all.len() implies (#[trigger] all[a]).start <= all[a].end by {
            if a < rest.len() {
                assert(all[a] == rest[a]);
            }
        }
    }
}

proof fn merged_is_apart(tops: Seq<TopView>, items: Seq<ItemView>, gap: usize)
    requires
        tops_in_order(tops),
    ensures
        apart(merged(tops, items, gap)),
        forall|k: int|
            0 <= k < merged(tops, items, gap).len() ==> tops.len() > 0 && (#[trigger] merged(tops, items, gap)[k]).last_line
                <= tops.last().end,
    decreases tops.len(),
{
    if tops.len() > 0 {
        let less = tops.drop_last();
        assert forall|a: int| 0 <= a < less.len() implies (#[trigger] less[a]).start <= less[a].end by {
            assert(less[a] == tops[a]);
        }
        assert forall|a: int, b: int| 0 <= a < b < less.len() implies (#[trigger] less[a]).end <= (#[trigger] less[b]).start
            by {
            assert(less[a] == tops[a] && less[b] == tops[b]);
        }
        merged_is_apart(less, items, gap);
        let rest = merged(less, items, gap);
        let all = merged(tops, items, gap);
        let c = tops.last();
        assert(tops[tops.len() - 1] == c);
        assert forall|k: int| 0 <= k < rest.len() implies (#[trigger] rest[k]).last_line <= c.start by {
            assert(less.last() == tops[tops.len() - 2]);
            assert(tops[tops.len() - 2].end <= tops[tops.len() - 1].start);
        }
        assert forall|a: int, b: int| 0 <= a < b < all.len() implies (#[trigger] all[a]).last_line < (#[trigger] all[b]).first_line
            by {
            assert(all[a] == rest[a]);
            if b < rest.len() {
                assert(all[b].first_line == rest[b].first_line);
            } else {
                assert(rest[a].last_line <= c.start);
                let last = rest.last();
                assert(last == rest[rest.len() - 1]);
                if a < rest.len() - 1 {
                    assert(rest[a].last_line < rest[rest.len() - 1].first_line);
                }
                assert(!joins(last, c, items, gap));
                assert(last.last_line < c.start);
            }
        }
        assert forall|a: int| 0 <= a < all.len() implies (#[trigger] all[a]).first_line <= all[a].last_line && all[a].last_line
            <= c.end by {
            if a < rest.len() {
                assert(rest[a].first_line <= rest[a].last_line);
                assert(rest[a].last_line <= c.start);
            }
        }
    }
}

proof fn entitled_is_apart(bds: Seq<BoundaryView>, tops: Seq<TopView>, markers: Seq<Chars>, require: bool)
    requires
        apart(bds),
    ensures
        apart(entitled_all(bds, tops, markers, require)),
        forall|k: int|
            0 <= k < entitled_all(bds, tops, markers, require).len() ==> bds.len() > 0 && (#[trigger] entitled_all(
                bds,
                tops,
                markers,
                require,
            )[k]).last_line <= bds.last().last_line,
    decreases bds.len(),
{
    if bds.len() > 0 {
        let less = bds.drop_last();
        assert forall|a: int| 0 <= a < less.len() implies (#[trigger] less[a]).first_line <= less[a].last_line by {
            assert(less[a] == bds[a]);
        }
        assert forall|a: int, b: int| 0 <= a < b < less.len() implies (#[trigger] less[a]).last_line < (#[trigger] less[b]).first_line
            by {
            assert(less[a] == bds[a] && less[b] == bds[b]);
        }
        entitled_is_apart(less, tops, markers, require);
        let rest = entitled_all(less, tops, markers, require);
        let all = entitled_all(bds, tops, markers, require);
        assert(bds[bds.len() - 1].first_line <= bds[bds.len() - 1].last_line);
        assert forall|k: int| 0 <= k < rest.len() implies (#[trigger] rest[k]).last_line < bds.last().first_line by {
            assert(less.last() == bds[bds.len() - 2]);
            assert(bds[bds.len() - 2].last_line < bds[bds.len() - 1].first_line);
        }
        assert forall|a: int| 0 <= a < all.len() implies (#[trigger] all[a]).first_line <= all[a].last_line && all[a].last_line
            <= bds.last().last_line by {
            if a < rest.len() {
                assert(rest[a].last_line < bds.last().first_line);
            }
        }
        assert forall|a: int, b: int| 0 <= a < b < all.len() implies (#[trigger] all[a]).last_line < (#[trigger] all[b]).first_line
            by {
            assert(all[a] == rest[a]);
            if b < rest.len() {
                assert(all[b] == rest[b]);
            }
        }
    }
}

proof fn headless_is_apart(bds: Seq<BoundaryView>, items: Seq<ItemView>, i: int, skip: bool)
    requires
        apart(bds),
        0 <= i,
    ensures
        apart(headless(bds, items, i, skip)),
        forall|k: int|
            0 <= k < headless(bds, items, i, skip).len() ==> i < bds.len() && bds[i].first_line <= (#[trigger] headless(
                bds,
                items,
                i,
                skip,
            )[k]).first_line,
        forall|k: int|
            0 <= k < headless(bds, items, i, skip).len() ==> (#[trigger] headless(bds, items, i, skip)[k]).last_line
                <= bds.last().last_line,
    decreases bds.len() - i,
{
    if i < bds.len() {
        let next = if skip {
            false
        } else if header(bds[i], items) {
            i + 1 < bds.len() && closes(bds[i], bds[i + 1], items)
        } else {
            false
        };
        headless_is_apart(bds, items, i + 1, next);
        let rest = headless(bds, items, i + 1, next);
        let all = headless(bds, items, i, skip);
        assert(bds[i].first_line <= bds[i].last_line);
        if i < bds.len() - 1 {
            assert(bds[i].last_line < bds[bds.len() - 1].first_line);
            assert(bds[bds.len() - 1].first_line <= bds[bds.len() - 1].last_line);
        }
        assert forall|k: int| 0 <= k < rest.len() implies bds[i].last_line < (#[trigger] rest[k]).first_line by {
            assert(bds[i].last_line < bds[i + 1].first_line);
        }
        if !skip && !header(bds[i], items) {
            assert(all == seq![bds[i]] + rest);
            assert forall|a: int| 0 <= a < all.len() implies (#[trigger] all[a]).first_line <= all[a].last_line
                && bds[i].first_line <= all[a].first_line && all[a].last_line <= bds.last().last_line by {
                if a > 0 {
                    assert(all[a] == rest[a - 1]);
                }
            }
            assert forall|a: int, b: int| 0 <= a < b < all.len() implies (#[trigger] all[a]).last_line
                < (#[trigger] all[b]).first_line by {
                assert(all[b] == rest[b - 1]);
                if a > 0 {
                    assert(all[a] == rest[a - 1]);
                }
            }
        }
    }
}

/// Sections never overlap: each ends before the next one starts, and the lines it counts are those
/// from its start to its end. The tree is in source order, as every parsed one is, and its comments
/// are not empty.
#[verifier::spinoff_prover]
#[verifier::rlimit(80)]
pub proof fn sections_are_disjoint(t: Nodes, lang: Language, src: Seq<u8>, funcs: Seq<FunctionMetrics>, b: Banners)
    requires
        t.len() > 0,
        in_source_order(t),
        forall|a: int|
            0 <= a < t[0].children.len() ==> #[trigger] t[0].children[a] < t.len() && (comment_kind(
                lang,
                t[t[0].children[a] as int].kind,
            ) ==> t[t[0].children[a] as int].start < t[t[0].children[a] as int].end),
        src.len() + 1 < usize::MAX,
    ensures
        ({
            let s = sections_of(t, lang, src, funcs, b);
            &&& forall|i: int, j: int| 0 <= i < j < s.len() ==> (#[trigger] s[i]).end < (#[trigger] s[j]).start
            &&& forall|i: int| 0 <= i < s.len() ==> (#[trigger] s[i]).start + s[i].lines == s[i].end + 1
        }),
{
    let tops = top_comments(t, t[0].children, lang, src, b);
    let items = top_items(t, t[0].children, lang, src);
    assert(in_sequence(t, t[0].children, lang));
    comments_follow(t, t[0].children, lang, src, b);
    merged_is_apart(tops, items, b.pair_gap);
    let m = merged(tops, items, b.pair_gap);
    let markers = b.skip_markers.deep_view();
    entitled_is_apart(m, tops, markers, b.require_title);
    let e = entitled_all(m, tops, markers, b.require_title);
    headless_is_apart(e, items, 0, false);
    let bds = boundaries_of(t, lang, src, b);
    assert(apart(bds));
    newlines_bounded(src, src.len() as int);
    let s = sections_of(t, lang, src, funcs, b);
    let total = line_count(src);
    assert forall|i: int| 0 <= i < s.len() implies (#[trigger] s[i]).start == bds[i].last_line + 1 by {
        assert(bds[i].last_line <= e.last().last_line) by {
            if !b.skip_top_of_file && i < e.len() - 1 {
                assert(e[i].last_line < e[e.len() - 1].first_line);
                assert(e[e.len() - 1].first_line <= e[e.len() - 1].last_line);
            }
        }
        assert(e[e.len() - 1].last_line <= m.last().last_line);
        assert(m[m.len() - 1].last_line <= tops.last().end);
        let far = t[t[0].children.last() as int].end - 1;
        assert(tops[tops.len() - 1].end <= line_at(src, far));
        newlines_grow(
            src,
            if far < src.len() {
                far
            } else {
                src.len() as int
            },
            src.len() as int,
        );
        assert(bds[i].last_line <= total + 1);
    }
    assert forall|i: int, j: int| 0 <= i < j < s.len() implies (#[trigger] s[i]).end < (#[trigger] s[j]).start by {
        assert(bds[i].last_line < bds[i + 1].first_line);
        assert(bds[i].last_line < bds[j].first_line);
        assert(bds[j].first_line <= bds[j].last_line);
        if i + 1 < j {
            assert(bds[i + 1].last_line < bds[j].first_line);
            assert(bds[i + 1].first_line <= bds[i + 1].last_line);
        }
    }
}

} // verus!
