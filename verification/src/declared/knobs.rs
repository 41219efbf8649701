//! Config knobs a `Deserialize` struct accepts that no code reads.

use vstd::prelude::*;

use crate::declared::links::{
    child_at, child_of_field, is_among, keys_of, knob_keys, knobs_under, path_to, source_at, Links, LinksView,
};
use crate::declared::orphans::{Pass, PassView};
use crate::declared::side::{FieldDecl, FieldView, StructView};
use crate::declared::structs::{reads_of, reads_upto, struct_at};
use crate::declared::words::{doc_fence, fence_of, plural, plural_of};
use crate::names::RefCount;
use crate::order::{ordered, stable_order, Key, KeyView};
use crate::text::{byte_len, capped_size, copy_list, decimal, digits, join, joined, plus, put, same, Chars};
use crate::tree::ints;

verus! {

/// A knob (or a whole section) a config struct accepts that no code reads.
pub struct UnreadKnob {
    /// `[ci.homerunner]`, `[report].foo`, `Config.foo`.
    pub section: String,
    pub struct_name: String,
    pub file: String,
    pub start_line: usize,
    pub end_line: usize,
    /// Every knob the line covers (the parent field and its descendants for a roll-up).
    pub knobs: Vec<String>,
    /// The unread fields the line reports.
    pub unread: Vec<String>,
    pub source: String,
    pub doc: Option<(String, usize, usize)>,
    /// Read by tests only (never a finding, information).
    pub test_only: bool,
    /// A whole section: the unread parent field and every knob under it.
    pub rollup: bool,
    pub line_text: String,
}

/// An [`UnreadKnob`] by its contents.
pub struct KnobView {
    pub section: Chars,
    pub struct_name: Chars,
    pub file: Chars,
    pub start_line: usize,
    pub end_line: usize,
    pub knobs: Seq<Chars>,
    pub unread: Seq<Chars>,
    pub source: Chars,
    pub doc: Option<(Chars, usize, usize)>,
    pub test_only: bool,
    pub rollup: bool,
    pub line_text: Chars,
}

impl DeepView for UnreadKnob {
    type V = KnobView;

    open spec fn deep_view(&self) -> KnobView {
        KnobView {
            section: self.section@,
            struct_name: self.struct_name@,
            file: self.file@,
            start_line: self.start_line,
            end_line: self.end_line,
            knobs: self.knobs.deep_view(),
            unread: self.unread.deep_view(),
            source: self.source@,
            doc: self.doc.deep_view(),
            test_only: self.test_only,
            rollup: self.rollup,
            line_text: self.line_text@,
        }
    }
}

/// What the search for unread knobs reads.
pub struct KnobsView {
    pub pass: PassView,
    pub links: LinksView,
    /// Docs users read.
    pub docs: Seq<(Chars, Chars)>,
}

/// What the search for unread knobs reads.
pub struct Knobs<'a> {
    pub pass: &'a Pass<'a>,
    pub links: Links<'a>,
    pub docs: &'a Vec<(String, String)>,
}

impl<'a> View for Knobs<'a> {
    type V = KnobsView;

    open spec fn view(&self) -> KnobsView {
        KnobsView { pass: self.pass@, links: self.links@, docs: self.docs.deep_view() }
    }
}

/// The struct of a candidate.
pub open spec fn decl_at(e: KnobsView, c: usize) -> StructView {
    struct_at(e.links.sides, e.links.cands[c as int])
}

/// The file of a candidate.
pub open spec fn file_at(e: KnobsView, c: usize) -> Chars {
    e.links.sides[e.links.cands[c as int].0 as int].path
}

/// Reads of a field name anywhere.
pub open spec fn reads_at(e: KnobsView, name: Chars) -> RefCount {
    reads_upto(e.pass.sides, e.pass.tests, name, e.pass.sides.len() as int)
}

// ---------- names ----------

/// How many of the first `n` fields have a name.
pub open spec fn named_fields(fields: Seq<FieldView>, name: Chars, n: int) -> nat
    decreases n,
{
    if n <= 0 {
        0
    } else {
        named_fields(fields, name, n - 1) + (if fields[n - 1].name == name {
            1nat
        } else {
            0nat
        })
    }
}

/// How many fields of the first `n` candidates have a name.
pub open spec fn name_count(e: KnobsView, name: Chars, n: int) -> nat
    decreases n,
{
    if n <= 0 {
        0
    } else {
        let fields = decl_at(e, (n - 1) as usize).fields;
        name_count(e, name, n - 1) + named_fields(fields, name, fields.len() as int)
    }
}

/// A short name that another candidate also declares: skipped.
pub open spec fn collides(e: KnobsView, name: Chars) -> bool {
    byte_len(name) < e.pass.cfg.min_field_name_len && name_count(e, name, e.links.cands.len() as int) > 1
}

fn count_named(fields: &Vec<FieldDecl>, name: &str) -> (n: usize)
    ensures
        n == named_fields(fields.deep_view(), name@, fields.len() as int),
{
    let ghost fv = fields.deep_view();
    let mut n: usize = 0;
    let mut k: usize = 0;
    while k < fields.len()
        invariant
            k <= fields.len(),
            n <= k,
            fv == fields.deep_view(),
            n == named_fields(fv, name@, k as int),
        decreases fields.len() - k,
    {
        assert(fv[k as int] == fields@[k as int].deep_view());
        if same(fields[k].name.as_str(), name) {
            n = n + 1;
        }
        k = k + 1;
    }
    n
}

impl<'a> Knobs<'a> {
    /// The links are those of the sides.
    pub open spec fn ok(&self) -> bool {
        self.links.ok() && self.links@.sides == self.pass@.sides
    }

    fn is_skipped(&self, name: &str) -> (r: bool)
        requires
            self.ok(),
        ensures
            r == collides(self@, name@),
    {
        if name.as_bytes().len() >= self.pass.cfg.min_field_name_len {
            return false;
        }
        let mut n: usize = 0;
        let mut k: usize = 0;
        while k < self.links.cands.len()
            invariant
                k <= self.links.cands.len(),
                self.ok(),
                n == capped_size(name_count(self@, name@, k as int)),
            decreases self.links.cands.len() - k,
        {
            let fields = &self.links.decl(k).fields;
            assert(fields.len() == fields.deep_view().len());
            n = n.saturating_add(count_named(fields, name));
            k = k + 1;
        }
        n > 1
    }
}

// ---------- sections ----------

/// `[a.b]`.
pub open spec fn bracketed(keys: Seq<Chars>) -> Chars {
    "["@ + joined(keys, "."@) + "]"@
}

fn bracket(keys: &Vec<String>) -> (o: String)
    ensures
        o@ == bracketed(keys.deep_view()),
{
    plus(plus("[".to_owned(), join(keys, ".").as_str()), "]")
}

/// `12`, or `12-14`.
pub open spec fn line_range(a: usize, b: usize) -> Chars {
    if a == b {
        digits(a as nat)
    } else {
        digits(a as nat) + "-"@ + digits(b as nat)
    }
}

/// `12`, or `12-14`.
pub fn range_text(a: usize, b: usize) -> (o: String)
    ensures
        o@ == line_range(a, b),
{
    if a == b {
        decimal(a)
    } else {
        plus(plus(decimal(a), "-"), decimal(b).as_str())
    }
}

/// Where docs document a section.
pub open spec fn doc_clause(doc: Option<(Chars, usize, usize)>) -> Chars {
    match doc {
        Some((p, a, b)) => " and documented at "@ + p + ":"@ + line_range(a, b),
        None => Seq::empty(),
    }
}

fn doc_text(doc: &Option<(String, usize, usize)>) -> (o: String)
    ensures
        o@ == doc_clause(doc.deep_view()),
{
    match doc {
        Some(d) => {
            let mut o = " and documented at ".to_owned();
            o.append(d.0.as_str());
            o.append(":");
            o.append(range_text(d.1, d.2).as_str());
            o
        },
        None => {
            let o = String::new();
            assert(o@ =~= Seq::<char>::empty());
            o
        },
    }
}

/// The first `n` of a list.
pub open spec fn firsts(list: Seq<Chars>, n: usize) -> Seq<Chars> {
    list.take(if n < list.len() {
        n as int
    } else {
        list.len() as int
    })
}

/// `, +2 more` where a list is longer than what is shown of it.
pub open spec fn more_clause(len: nat, shown: usize) -> Chars {
    if len > shown {
        ", +"@ + digits((len - shown) as nat) + " more"@
    } else {
        Seq::empty()
    }
}

fn first_of(list: &Vec<String>, n: usize) -> (out: Vec<String>)
    ensures
        out.deep_view() == firsts(list.deep_view(), n),
{
    let ghost view = list.deep_view();
    let mut out: Vec<String> = Vec::new();
    let mut k: usize = 0;
    assert(out.deep_view() =~= view.take(0));
    while k < list.len() && k < n
        invariant
            k <= list.len(),
            k <= n,
            view == list.deep_view(),
            out.deep_view() == view.take(k as int),
        decreases list.len() - k,
    {
        assert(view[k as int] == list@[k as int]@);
        put(&mut out, list[k].clone());
        assert(view.take(k + 1) =~= view.take(k as int).push(view[k as int]));
        k = k + 1;
    }
    assert(view.len() == list.len());
    out
}

fn more_text(len: usize, shown: usize) -> (o: String)
    ensures
        o@ == more_clause(len as nat, shown),
{
    if len > shown {
        plus(plus(", +".to_owned(), decimal(len - shown).as_str()), " more")
    } else {
        let o = String::new();
        assert(o@ =~= Seq::<char>::empty());
        o
    }
}

/// ` under deny_unknown_fields`, where unknown fields are denied.
pub open spec fn deny_clause(deny: bool) -> Chars {
    if deny {
        " under deny_unknown_fields"@
    } else {
        ""@
    }
}

// ---------- findings ----------

/// A knob that only tests read.
pub open spec fn tested_knob(e: KnobsView, c: usize, f: FieldView, keys: Seq<Chars>, source: Chars) -> KnobView {
    let d = decl_at(e, c);
    let file = file_at(e, c);
    KnobView {
        section: if keys.len() == 0 {
            d.name + "."@ + f.key
        } else {
            bracketed(keys) + "."@ + f.key
        },
        struct_name: d.name,
        file,
        start_line: f.line,
        end_line: f.line,
        knobs: seq![f.key],
        unread: seq![f.key],
        source,
        doc: None,
        test_only: true,
        rollup: false,
        line_text: d.name + "."@ + f.name + " ("@ + file + ":"@ + digits(f.line as nat) + ") is read only by tests"@,
    }
}

/// The smaller of two lines.
pub open spec fn lesser(a: usize, b: usize) -> usize {
    if a <= b {
        a
    } else {
        b
    }
}

/// The larger of two lines.
pub open spec fn larger(a: usize, b: usize) -> usize {
    if a >= b {
        a
    } else {
        b
    }
}

/// A whole section no code reads: field `f` of candidate `c`, which holds candidate `child`.
pub open spec fn section_knob(
    e: KnobsView,
    c: usize,
    f: FieldView,
    child: usize,
    keys: Seq<Chars>,
    source: Chars,
) -> KnobView {
    let d = decl_at(e, c);
    let cd = decl_at(e, child);
    let all = seq![f.key] + knobs_under(e.links, child);
    let section = bracketed(keys.push(f.key));
    let doc = fence_of(e.docs, section, all);
    let same_file = file_at(e, child) == file_at(e, c);
    let start = if same_file {
        lesser(f.line, cd.start_line)
    } else {
        cd.start_line
    };
    let end = if same_file {
        larger(f.line, cd.end_line)
    } else {
        cd.end_line
    };
    let max = e.pass.cfg.max_knobs_listed;
    KnobView {
        section,
        struct_name: cd.name,
        file: file_at(e, child),
        start_line: start,
        end_line: end,
        knobs: all,
        unread: seq![f.key],
        source,
        doc,
        test_only: false,
        rollup: true,
        line_text: section + " ("@ + file_at(e, child) + ":"@ + digits(start as nat) + "-"@ + digits(end as nat) + ", "@
            + plural_of(all.len(), "knob"@, "knobs"@) + ": "@ + joined(firsts(all, max), ", "@) + more_clause(all.len(), max)
            + ") is deserialised from "@ + source + deny_clause(cd.deny_unknown_fields || d.deny_unknown_fields) + doc_clause(
            doc,
        ) + ", but no code reads any of them - the program accepts the section and ignores it"@,
    }
}

/// `key (line 3)` of fields.
pub open spec fn with_lines(fields: Seq<FieldView>) -> Seq<Chars> {
    Seq::new(fields.len(), |k: int| fields[k].key + " (line "@ + digits(fields[k].line as nat) + ")"@)
}

/// The keys of fields.
pub open spec fn field_keys(fields: Seq<FieldView>) -> Seq<Chars> {
    Seq::new(fields.len(), |k: int| fields[k].key)
}

/// The section of a candidate as a line starts with it.
pub open spec fn own_section(d: StructView, keys: Seq<Chars>) -> Chars {
    if keys.len() == 0 {
        d.name
    } else {
        bracketed(keys)
    }
}

/// The doc of the knobs of a candidate.
pub open spec fn own_doc(e: KnobsView, d: StructView, keys: Seq<Chars>, names: Seq<Chars>) -> Option<(Chars, usize, usize)> {
    fence_of(e.docs, if keys.len() == 0 {
        ""@
    } else {
        own_section(d, keys)
    }, names)
}

/// The knobs of candidate `c` that no code reads.
pub open spec fn unread_knob(e: KnobsView, c: usize, unread: Seq<FieldView>, keys: Seq<Chars>, source: Chars) -> KnobView {
    let d = decl_at(e, c);
    let file = file_at(e, c);
    let section = own_section(d, keys);
    let names = field_keys(unread);
    let doc = own_doc(e, d, keys, names);
    let knobs = knob_keys(d.fields, d.fields.len() as int);
    let all = unread.len() == knobs.len();
    let max = e.pass.cfg.max_knobs_listed;
    let more = more_clause(unread.len(), max);
    let place = section + " ("@ + file + ":"@ + digits(d.start_line as nat) + "-"@ + digits(d.end_line as nat) + ", "@
        + plural_of(knobs.len(), "knob"@, "knobs"@);
    let head = if all {
        place + ": "@ + joined(firsts(names, max), ", "@) + more + ")"@
    } else {
        place + ")"@
    };
    let what = if all {
        "any of them"@
    } else {
        joined(firsts(with_lines(unread), max), ", "@) + more
    };
    KnobView {
        section,
        struct_name: d.name,
        file,
        start_line: d.start_line,
        end_line: d.end_line,
        knobs,
        unread: names,
        source,
        doc,
        test_only: false,
        rollup: false,
        line_text: head + " is deserialised from "@ + source + deny_clause(d.deny_unknown_fields) + doc_clause(doc)
            + ", but no code reads "@ + what + " - the program accepts "@ + (if all {
            "the section"@
        } else {
            "it"@
        }) + " and ignores it"@,
    }
}

/// What the search has found.
pub struct FoundView {
    /// Candidates a line already covers.
    pub covered: Seq<usize>,
    pub findings: Seq<KnobView>,
    /// Lines held back.
    pub suppressed: usize,
}

/// What the search has found.
pub struct Found {
    pub covered: Vec<usize>,
    pub findings: Vec<UnreadKnob>,
    pub suppressed: usize,
}

impl View for Found {
    type V = FoundView;

    open spec fn view(&self) -> FoundView {
        FoundView { covered: self.covered@, findings: self.findings.deep_view(), suppressed: self.suppressed }
    }
}

/// One more line, or one more held back: without a read sibling a doc has to name it.
pub open spec fn reported(e: KnobsView, s: FoundView, k: KnobView, sibling: bool) -> FoundView {
    if e.pass.cfg.require_sibling_read_or_doc && !sibling && k.doc is None {
        FoundView { suppressed: capped_size((s.suppressed + 1) as nat), ..s }
    } else {
        FoundView { findings: s.findings.push(k), ..s }
    }
}

/// What field `f` of candidate `c` adds, and the fields of it that wait for a line of their own.
pub open spec fn field_step(
    e: KnobsView,
    c: usize,
    f: FieldView,
    sibling: bool,
    s: FoundView,
    unread: Seq<FieldView>,
) -> (FoundView, Seq<FieldView>) {
    let (root, keys) = path_to(e.links, c);
    let source = source_at(e.links, root);
    let r = reads_at(e, f.name);
    let child = child_at(e.links.sides, e.links.cands, f);
    if f.skip || collides(e, f.name) || r.prod > 0 {
        (s, unread)
    } else if r.test > 0 {
        let seen = FoundView { findings: s.findings.push(tested_knob(e, c, f, keys, source)), ..s };
        match child {
            Some(x) => if x != c {
                (FoundView { covered: seen.covered.push(x), ..seen }, unread)
            } else {
                (seen, unread)
            },
            None => (seen, unread),
        }
    } else {
        match child {
            Some(x) => if x != c {
                let seen = FoundView { covered: s.covered.push(x), ..s };
                (reported(e, seen, section_knob(e, c, f, x, keys, source), sibling), unread)
            } else {
                (s, unread.push(f))
            },
            None => (s, unread.push(f)),
        }
    }
}

/// What the first `n` fields of candidate `c` add.
pub open spec fn fields_upto(e: KnobsView, c: usize, sibling: bool, s: FoundView, n: int) -> (FoundView, Seq<FieldView>)
    decreases n,
{
    if n <= 0 {
        (s, Seq::empty())
    } else {
        let (before, unread) = fields_upto(e, c, sibling, s, n - 1);
        field_step(e, c, decl_at(e, c).fields[n - 1], sibling, before, unread)
    }
}

/// Some knob of a struct is read by production code.
pub open spec fn sibling_read(e: KnobsView, fields: Seq<FieldView>) -> bool {
    exists|k: int| 0 <= k < fields.len() && !(#[trigger] fields[k]).skip && reads_at(e, fields[k].name).prod > 0
}

/// What candidate `c` adds.
pub open spec fn cand_step(e: KnobsView, c: usize, s: FoundView) -> FoundView {
    if s.covered.contains(c) {
        s
    } else {
        let fields = decl_at(e, c).fields;
        let sibling = sibling_read(e, fields);
        let (next, unread) = fields_upto(e, c, sibling, s, fields.len() as int);
        if unread.len() == 0 {
            next
        } else {
            let (root, keys) = path_to(e.links, c);
            reported(e, next, unread_knob(e, c, unread, keys, source_at(e.links, root)), sibling)
        }
    }
}

/// How candidates are ordered: parents before children, so that a roll-up covers its descendants.
pub open spec fn cand_key(e: KnobsView, c: usize) -> KeyView {
    KeyView { a: path_to(e.links, c).1.len() as usize, b: 0, s: file_at(e, c), c: decl_at(e, c).start_line }
}

/// The keys of the candidates.
pub open spec fn cand_keys(e: KnobsView) -> Seq<KeyView> {
    Seq::new(e.links.cands.len(), |k: int| cand_key(e, k as usize))
}

/// What the first `n` candidates of an order add.
pub open spec fn found_upto(e: KnobsView, order: Seq<int>, n: int) -> FoundView
    decreases n,
{
    if n <= 0 {
        FoundView { covered: Seq::empty(), findings: Seq::empty(), suppressed: 0 }
    } else {
        cand_step(e, order[n - 1] as usize, found_upto(e, order, n - 1))
    }
}

/// What the search finds.
pub open spec fn found(e: KnobsView) -> FoundView {
    let order = ordered(cand_keys(e), e.links.cands.len() as int);
    found_upto(e, order, order.len() as int)
}

// ---------- the search ----------

fn lower(a: usize, b: usize) -> (r: usize)
    ensures
        r == lesser(a, b),
{
    if a <= b {
        a
    } else {
        b
    }
}

fn higher(a: usize, b: usize) -> (r: usize)
    ensures
        r == larger(a, b),
{
    if a >= b {
        a
    } else {
        b
    }
}

fn one(s: &str) -> (out: Vec<String>)
    ensures
        out.deep_view() == seq![s@],
{
    let mut out: Vec<String> = Vec::new();
    put(&mut out, s.to_owned());
    assert(out.deep_view() =~= seq![s@]);
    out
}

fn copy_field(f: &FieldDecl) -> (r: FieldDecl)
    ensures
        r.deep_view() == f.deep_view(),
{
    FieldDecl {
        name: f.name.clone(),
        key: f.key.clone(),
        line: f.line,
        ty: match &f.ty {
            Some(t) => Some(t.clone()),
            None => None,
        },
        skip: f.skip,
    }
}

fn deny_text(deny: bool) -> (o: &'static str)
    ensures
        o@ == deny_clause(deny),
{
    if deny {
        " under deny_unknown_fields"
    } else {
        ""
    }
}

fn keys_at(fields: &Vec<FieldDecl>) -> (out: Vec<String>)
    ensures
        out.deep_view() == field_keys(fields.deep_view()),
{
    let ghost fv = fields.deep_view();
    let mut out: Vec<String> = Vec::new();
    let mut k: usize = 0;
    while k < fields.len()
        invariant
            k <= fields.len(),
            fv == fields.deep_view(),
            out.len() == k,
            forall|j: int| 0 <= j < k ==> (#[trigger] out@[j])@ == fv[j].key,
        decreases fields.len() - k,
    {
        assert(fv[k as int] == fields@[k as int].deep_view());
        out.push(fields[k].key.clone());
        k = k + 1;
    }
    assert(out.deep_view() =~= field_keys(fv));
    out
}

fn lined(fields: &Vec<FieldDecl>) -> (out: Vec<String>)
    ensures
        out.deep_view() == with_lines(fields.deep_view()),
{
    let ghost fv = fields.deep_view();
    let ghost want = with_lines(fv);
    let mut out: Vec<String> = Vec::new();
    let mut k: usize = 0;
    while k < fields.len()
        invariant
            k <= fields.len(),
            fv == fields.deep_view(),
            want == with_lines(fv),
            out.len() == k,
            forall|j: int| 0 <= j < k ==> (#[trigger] out@[j])@ == want[j],
        decreases fields.len() - k,
    {
        assert(fv[k as int] == fields@[k as int].deep_view());
        let mut o = fields[k].key.clone();
        o.append(" (line ");
        o.append(decimal(fields[k].line).as_str());
        o.append(")");
        out.push(o);
        k = k + 1;
    }
    assert(out.deep_view() =~= want);
    out
}

impl<'a> Knobs<'a> {
    fn tested(&self, c: usize, f: &FieldDecl, keys: &Vec<String>, source: &str) -> (r: UnreadKnob)
        requires
            self.ok(),
            c < self.links.cands.len(),
        ensures
            r.deep_view() == tested_knob(self@, c, f.deep_view(), keys.deep_view(), source@),
    {
        let d = self.links.decl(c);
        let file = self.links.side(c).path.as_str();
        assert(keys.len() == keys.deep_view().len());
        let start = if keys.len() == 0 {
            d.name.clone()
        } else {
            bracket(keys)
        };
        let section = plus(plus(start, "."), f.key.as_str());
        let mut o = d.name.clone();
        o.append(".");
        o.append(f.name.as_str());
        o.append(" (");
        o.append(file);
        o.append(":");
        o.append(decimal(f.line).as_str());
        o.append(") is read only by tests");
        UnreadKnob {
            section,
            struct_name: d.name.clone(),
            file: file.to_owned(),
            start_line: f.line,
            end_line: f.line,
            knobs: one(f.key.as_str()),
            unread: one(f.key.as_str()),
            source: source.to_owned(),
            doc: None,
            test_only: true,
            rollup: false,
            line_text: o,
        }
    }

    #[verifier::spinoff_prover]
    #[verifier::rlimit(60)]
    fn section(&self, c: usize, f: &FieldDecl, child: usize, keys: &Vec<String>, source: &str) -> (r: UnreadKnob)
        requires
            self.ok(),
            c < self.links.cands.len(),
            child < self.links.cands.len(),
        ensures
            r.deep_view() == section_knob(self@, c, f.deep_view(), child, keys.deep_view(), source@),
    {
        let d = self.links.decl(c);
        let cd = self.links.decl(child);
        let file = self.links.side(c).path.as_str();
        let cfile = self.links.side(child).path.as_str();
        let mut all = one(f.key.as_str());
        let under = self.links.descendants(child);
        crate::text::extend(&mut all, &under);
        let mut path = copy_list(keys);
        put(&mut path, f.key.clone());
        let section = bracket(&path);
        let doc = doc_fence(self.docs, section.as_str(), &all);
        let same_file = same(cfile, file);
        let start: usize = if same_file {
            lower(f.line, cd.start_line)
        } else {
            cd.start_line
        };
        let end: usize = if same_file {
            higher(f.line, cd.end_line)
        } else {
            cd.end_line
        };
        let max: usize = self.pass.cfg.max_knobs_listed;
        assert(all.len() == all.deep_view().len());
        let mut o = section.clone();
        o.append(" (");
        o.append(cfile);
        o.append(":");
        o.append(decimal(start).as_str());
        o.append("-");
        o.append(decimal(end).as_str());
        o.append(", ");
        o.append(plural(all.len(), "knob", "knobs").as_str());
        o.append(": ");
        o.append(join(&first_of(&all, max), ", ").as_str());
        o.append(more_text(all.len(), max).as_str());
        o.append(") is deserialised from ");
        o.append(source);
        o.append(deny_text(cd.deny_unknown_fields || d.deny_unknown_fields));
        o.append(doc_text(&doc).as_str());
        o.append(", but no code reads any of them - the program accepts the section and ignores it");
        UnreadKnob {
            section,
            struct_name: cd.name.clone(),
            file: cfile.to_owned(),
            start_line: start,
            end_line: end,
            knobs: all,
            unread: one(f.key.as_str()),
            source: source.to_owned(),
            doc,
            test_only: false,
            rollup: true,
            line_text: o,
        }
    }

    #[verifier::spinoff_prover]
    #[verifier::rlimit(60)]
    fn own(&self, c: usize, unread: &Vec<FieldDecl>, keys: &Vec<String>, source: &str) -> (r: UnreadKnob)
        requires
            self.ok(),
            c < self.links.cands.len(),
        ensures
            r.deep_view() == unread_knob(self@, c, unread.deep_view(), keys.deep_view(), source@),
    {
        let d = self.links.decl(c);
        let file = self.links.side(c).path.as_str();
        assert(keys.len() == keys.deep_view().len());
        assert(unread.len() == unread.deep_view().len());
        assert(d.fields.len() == d.deep_view().fields.len());
        let section = if keys.len() == 0 {
            d.name.clone()
        } else {
            bracket(keys)
        };
        let names = keys_at(unread);
        let doc = doc_fence(
            self.docs,
            if keys.len() == 0 {
                ""
            } else {
                section.as_str()
            },
            &names,
        );
        let knobs = keys_of(&d.fields);
        assert(knobs.len() == knobs.deep_view().len());
        let all = unread.len() == knobs.len();
        let max: usize = self.pass.cfg.max_knobs_listed;
        let more = more_text(unread.len(), max);
        let mut o = section.clone();
        o.append(" (");
        o.append(file);
        o.append(":");
        o.append(decimal(d.start_line).as_str());
        o.append("-");
        o.append(decimal(d.end_line).as_str());
        o.append(", ");
        o.append(plural(knobs.len(), "knob", "knobs").as_str());
        if all {
            o.append(": ");
            o.append(join(&first_of(&names, max), ", ").as_str());
            o.append(more.as_str());
            o.append(")");
        } else {
            o.append(")");
        }
        let what = if all {
            "any of them".to_owned()
        } else {
            plus(join(&first_of(&lined(unread), max), ", "), more.as_str())
        };
        o.append(" is deserialised from ");
        o.append(source);
        o.append(deny_text(d.deny_unknown_fields));
        o.append(doc_text(&doc).as_str());
        o.append(", but no code reads ");
        o.append(what.as_str());
        o.append(" - the program accepts ");
        o.append(
            if all {
                "the section"
            } else {
                "it"
            },
        );
        o.append(" and ignores it");
        UnreadKnob {
            section,
            struct_name: d.name.clone(),
            file: file.to_owned(),
            start_line: d.start_line,
            end_line: d.end_line,
            knobs,
            unread: names,
            source: source.to_owned(),
            doc,
            test_only: false,
            rollup: false,
            line_text: o,
        }
    }

    fn report(&self, s: &mut Found, k: UnreadKnob, sibling: bool)
        ensures
            final(s)@ == reported(self@, old(s)@, k.deep_view(), sibling),
    {
        if self.pass.cfg.require_sibling_read_or_doc && !sibling && k.doc.is_none() {
            s.suppressed = s.suppressed.saturating_add(1);
        } else {
            put(&mut s.findings, k);
        }
    }

    #[verifier::spinoff_prover]
    #[verifier::rlimit(60)]
    fn field(
        &self,
        c: usize,
        f: &FieldDecl,
        sibling: bool,
        keys: &Vec<String>,
        source: &str,
        s: &mut Found,
        unread: &mut Vec<FieldDecl>,
    )
        requires
            self.ok(),
            c < self.links.cands.len(),
            keys.deep_view() == path_to(self@.links, c).1,
            source@ == source_at(self@.links, path_to(self@.links, c).0),
        ensures
            (final(s)@, final(unread).deep_view()) == field_step(
                self@,
                c,
                f.deep_view(),
                sibling,
                old(s)@,
                old(unread).deep_view(),
            ),
    {
        if f.skip || self.is_skipped(f.name.as_str()) {
            return;
        }
        let r = reads_of(self.pass.sides, self.pass.tests, f.name.as_str());
        assert(self.pass.sides.len() == self@.pass.sides.len());
        if r.prod > 0 {
            return;
        }
        let child = child_of_field(self.links.sides, self.links.cands, f);
        if r.test > 0 {
            put(&mut s.findings, self.tested(c, f, keys, source));
            if let Some(x) = child {
                if x != c {
                    s.covered.push(x);
                }
            }
            return;
        }
        match child {
            Some(x) => {
                if x != c {
                    s.covered.push(x);
                    let k = self.section(c, f, x, keys, source);
                    self.report(s, k, sibling);
                } else {
                    put(unread, copy_field(f));
                }
            },
            None => put(unread, copy_field(f)),
        }
    }

    fn has_read_sibling(&self, fields: &Vec<FieldDecl>) -> (r: bool)
        ensures
            r == sibling_read(self@, fields.deep_view()),
    {
        let ghost fv = fields.deep_view();
        assert(self.pass.sides.len() == self@.pass.sides.len());
        let mut k: usize = 0;
        while k < fields.len()
            invariant
                k <= fields.len(),
                fv == fields.deep_view(),
                self.pass.sides.len() == self@.pass.sides.len(),
                forall|j: int| 0 <= j < k ==> ((#[trigger] fv[j]).skip || reads_at(self@, fv[j].name).prod == 0),
            decreases fields.len() - k,
        {
            assert(fv[k as int] == fields@[k as int].deep_view());
            if !fields[k].skip && reads_of(self.pass.sides, self.pass.tests, fields[k].name.as_str()).prod > 0 {
                assert(reads_at(self@, fv[k as int].name).prod > 0);
                return true;
            }
            k = k + 1;
        }
        false
    }

    fn candidate(&self, c: usize, s: &mut Found)
        requires
            self.ok(),
            c < self.links.cands.len(),
        ensures
            final(s)@ == cand_step(self@, c, old(s)@),
    {
        if is_among(&s.covered, c) {
            return;
        }
        let ghost was = s@;
        let d = self.links.decl(c);
        let fields = &d.fields;
        let ghost fv = fields.deep_view();
        assert(fv.len() == fields.len());
        let (root, keys) = self.links.path_of(c);
        let source = self.links.source_of(root);
        let sibling = self.has_read_sibling(fields);
        let mut unread: Vec<FieldDecl> = Vec::new();
        assert(unread.deep_view() =~= Seq::<FieldView>::empty());
        let mut k: usize = 0;
        while k < fields.len()
            invariant
                k <= fields.len(),
                self.ok(),
                c < self.links.cands.len(),
                fv == fields.deep_view(),
                fv == decl_at(self@, c).fields,
                keys.deep_view() == path_to(self@.links, c).1,
                source@ == source_at(self@.links, path_to(self@.links, c).0),
                (s@, unread.deep_view()) == fields_upto(self@, c, sibling, was, k as int),
            decreases fields.len() - k,
        {
            assert(fv[k as int] == fields@[k as int].deep_view());
            self.field(c, &fields[k], sibling, &keys, source.as_str(), s, &mut unread);
            k = k + 1;
        }
        assert(unread.len() == unread.deep_view().len());
        if unread.len() > 0 {
            let x = self.own(c, &unread, &keys, source.as_str());
            self.report(s, x, sibling);
        }
    }

    /// The order of the candidates: parents before children.
    fn order(&self) -> (out: Vec<usize>)
        requires
            self.ok(),
        ensures
            ints(out@) == ordered(cand_keys(self@), self@.links.cands.len() as int),
            forall|k: int| 0 <= k < out.len() ==> #[trigger] out@[k] < self.links.cands.len(),
    {
        let mut keys: Vec<Key> = Vec::new();
        let mut c: usize = 0;
        while c < self.links.cands.len()
            invariant
                c <= self.links.cands.len(),
                self.ok(),
                keys.len() == c,
                forall|j: int| 0 <= j < c ==> (#[trigger] keys@[j]).deep_view() == cand_key(self@, j as usize),
            decreases self.links.cands.len() - c,
        {
            let (_, path) = self.links.path_of(c);
            assert(path.len() == path.deep_view().len());
            let key = Key {
                a: path.len(),
                b: 0,
                s: self.links.side(c).path.clone(),
                c: self.links.decl(c).start_line,
            };
            assert(key.deep_view() == cand_key(self@, c));
            keys.push(key);
            c = c + 1;
        }
        assert(keys.deep_view() =~= cand_keys(self@));
        stable_order(&keys)
    }

    /// The unread knobs, and how many lines were held back.
    pub fn search(&self) -> (s: Found)
        requires
            self.ok(),
        ensures
            s@ == found(self@),
    {
        let order = self.order();
        let ghost ov = ints(order@);
        let mut s = Found { covered: Vec::new(), findings: Vec::new(), suppressed: 0 };
        assert(s.covered@ =~= Seq::<usize>::empty());
        assert(s.findings.deep_view() =~= Seq::<KnobView>::empty());
        let mut k: usize = 0;
        while k < order.len()
            invariant
                k <= order.len(),
                self.ok(),
                ov == ints(order@),
                forall|k: int| 0 <= k < order.len() ==> #[trigger] order@[k] < self.links.cands.len(),
                s@ == found_upto(self@, ov, k as int),
            decreases order.len() - k,
        {
            assert(order@[k as int] < self.links.cands.len());
            assert(ov[k as int] == order@[k as int] as int);
            self.candidate(order[k], &mut s);
            k = k + 1;
        }
        assert(ov.len() == order.len());
        s
    }
}

// ---------- laws ----------

/// A knob that production code reads is never reported: its field adds nothing.
pub proof fn a_read_knob_is_never_reported(
    e: KnobsView,
    c: usize,
    f: FieldView,
    sibling: bool,
    s: FoundView,
    unread: Seq<FieldView>,
)
    requires
        reads_at(e, f.name).prod > 0,
    ensures
        field_step(e, c, f, sibling, s, unread) == (s, unread),
{
}

/// A skipped field is no knob: it adds nothing.
pub proof fn a_skipped_field_is_no_knob(
    e: KnobsView,
    c: usize,
    f: FieldView,
    sibling: bool,
    s: FoundView,
    unread: Seq<FieldView>,
)
    requires
        f.skip,
    ensures
        field_step(e, c, f, sibling, s, unread) == (s, unread),
{
}

} // verus!
