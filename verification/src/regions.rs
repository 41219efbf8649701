//! Inline test regions of a Rust file: items under `#[test]` or `#[cfg(test)]`.

use vstd::prelude::*;

use crate::text::{same, trim, trimmed, Chars};
use crate::tree::{before_of, named_at, node_ok, Nodes, SyntaxTree};

verus! {

/// One region, by bytes and by lines.
#[derive(Debug, Clone, Copy, PartialEq, Eq, Structural)]
pub struct TestRegion {
    pub start: usize,
    pub end: usize,
    pub start_line: usize,
    pub end_line: usize,
}

impl DeepView for TestRegion {
    type V = TestRegion;

    open spec fn deep_view(&self) -> TestRegion {
        *self
    }
}

/// Some region holds the byte.
pub open spec fn within(regions: Seq<TestRegion>, byte: usize) -> bool {
    exists|k: int| 0 <= k < regions.len() && (#[trigger] regions[k]).start <= byte < regions[k].end
}

/// Does a region hold `byte`?
pub fn contains(regions: &Vec<TestRegion>, byte: usize) -> (r: bool)
    ensures
        r == within(regions@, byte),
{
    let mut k: usize = 0;
    while k < regions.len()
        invariant
            k <= regions.len(),
            forall|j: int| 0 <= j < k ==> !((#[trigger] regions@[j]).start <= byte < regions@[j].end),
        decreases regions.len() - k,
    {
        let g: TestRegion = regions[k];
        if g.start <= byte && byte < g.end {
            assert(regions@[k as int].start <= byte < regions@[k as int].end);
            return true;
        }
        k = k + 1;
    }
    false
}

/// The lines of one region.
pub open spec fn region_lines(g: TestRegion) -> int {
    if g.start_line <= g.end_line {
        g.end_line - g.start_line + 1
    } else {
        0
    }
}

/// The lines of all regions together; the largest number stands for anything beyond it.
pub open spec fn lines_in(regions: Seq<TestRegion>) -> usize
    decreases regions.len(),
{
    if regions.len() == 0 {
        0
    } else {
        let n = lines_in(regions.drop_last()) + region_lines(regions.last());
        if n <= usize::MAX {
            n as usize
        } else {
            usize::MAX
        }
    }
}

/// How many lines the regions span.
pub fn inline_lines(regions: &Vec<TestRegion>) -> (n: usize)
    ensures
        n == lines_in(regions@),
{
    let mut n: usize = 0;
    let mut k: usize = 0;
    assert(regions@.take(0) =~= Seq::<TestRegion>::empty());
    while k < regions.len()
        invariant
            k <= regions.len(),
            n == lines_in(regions@.take(k as int)),
        decreases regions.len() - k,
    {
        assert(regions@.take(k + 1).drop_last() =~= regions@.take(k as int));
        let g: TestRegion = regions[k];
        if g.start_line <= g.end_line {
            n = n.saturating_add(g.end_line - g.start_line).saturating_add(1);
        }
        k = k + 1;
    }
    assert(regions@.take(regions@.len() as int) =~= regions@);
    n
}

/// The text of the attribute of an attribute item, without white space at its ends.
pub open spec fn attribute_text(t: Nodes, i: int) -> Chars {
    match named_at(t, i, 0) {
        Some(a) => trimmed(t[a as int].text),
        None => Seq::empty(),
    }
}

/// An attribute above `i`, past comments and other attributes, makes it test code.
pub open spec fn under_test(t: Nodes, i: int) -> bool
    decreases i,
{
    match before_of(t, i, false) {
        None => false,
        Some(p) => if p >= i || p < 0 {
            false
        } else if t[p as int].kind == "attribute_item"@ {
            attribute_text(t, p as int) == "test"@ || attribute_text(t, p as int) == "cfg(test)"@ || under_test(
                t,
                p as int,
            )
        } else if t[p as int].kind == "line_comment"@ || t[p as int].kind == "block_comment"@ {
            under_test(t, p as int)
        } else {
            false
        },
    }
}

/// An item, not an attribute or a comment, that is test code.
pub open spec fn opens_region(t: Nodes, i: int) -> bool {
    t[i].named && t[i].kind != "attribute_item"@ && t[i].kind != "line_comment"@ && t[i].kind != "block_comment"@
        && under_test(t, i)
}

/// The regions from node `i` on, outermost only.
pub open spec fn regions_from(t: Nodes, i: int) -> Seq<TestRegion>
    decreases t.len() - i,
{
    if i < 0 || i >= t.len() {
        Seq::empty()
    } else if opens_region(t, i) && i < t[i].after <= t.len() {
        seq![region_of(t, i)] + regions_from(t, t[i].after as int)
    } else {
        regions_from(t, i + 1)
    }
}

/// The region of one item.
pub open spec fn region_of(t: Nodes, i: int) -> TestRegion {
    TestRegion { start: t[i].start, end: t[i].end, start_line: t[i].line, end_line: t[i].end_line }
}

fn is_under_test(t: &SyntaxTree, i: usize) -> (r: bool)
    requires
        t.ok(),
        i < t@.len(),
    ensures
        r == under_test(t@, i as int),
    decreases i,
{
    match t.prev(i, false) {
        None => false,
        Some(p) => {
            if t.is(p, "attribute_item") {
                let text: String = match t.named_child(p, 0) {
                    Some(a) => trim(t.text(a)),
                    None => String::new(),
                };
                assert(text@ =~= attribute_text(t@, p as int));
                same(text.as_str(), "test") || same(text.as_str(), "cfg(test)") || is_under_test(t, p)
            } else if t.is(p, "line_comment") || t.is(p, "block_comment") {
                is_under_test(t, p)
            } else {
                false
            }
        },
    }
}

/// The inline test regions of a file: the outermost items under `#[test]` or `#[cfg(test)]`.
pub fn test_regions(t: &SyntaxTree) -> (out: Vec<TestRegion>)
    requires
        t.ok(),
    ensures
        out@ == regions_from(t@, 0),
{
    let mut out: Vec<TestRegion> = Vec::new();
    let mut i: usize = 0;
    assert(out@ + regions_from(t@, 0) =~= regions_from(t@, 0));
    while i < t.len()
        invariant
            i <= t@.len(),
            t.ok(),
            regions_from(t@, 0) == out@ + regions_from(t@, i as int),
        decreases t@.len() - i,
    {
        assert(node_ok(t@, i as int));
        let n = &t.nodes[i];
        assert(n.deep_view() == t@[i as int]);
        if n.named && !t.is(i, "attribute_item") && !t.is(i, "line_comment") && !t.is(i, "block_comment")
            && is_under_test(t, i) {
            let ghost done = out@;
            let g = TestRegion { start: n.start, end: n.end, start_line: n.line, end_line: n.end_line };
            out.push(g);
            let ghost rest = regions_from(t@, t@[i as int].after as int);
            assert(done + (seq![g] + rest) =~= out@ + rest);
            i = n.after;
        } else {
            i = i + 1;
        }
    }
    assert(out@ + Seq::<TestRegion>::empty() =~= out@);
    out
}

} // verus!
