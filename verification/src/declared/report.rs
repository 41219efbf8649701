//! The pass as a whole: from manifests and sides to a report.

use vstd::prelude::*;

use crate::config::Declared;
use crate::declared::features::{check_features, features_upto, Feature, FeatureState, FeatureView};
use crate::declared::history::{
    answer, answer_to, asked, copy_feature, is_young, label_of, lookups, scope_label, settle_feature, settle_orphan,
    settled_feature, settled_orphan, too_young, AnswerView, History, HistoryView, Lookup, LookupView,
};
use crate::declared::knobs::{found, KnobView, Knobs, KnobsView, UnreadKnob};
use crate::declared::links::{keys_of, knob_keys, link, linked_upto, Links, LinksView};
use crate::declared::manifest::ManifestView;
use crate::declared::orphans::{check_deps, checked_upto, Checked, CheckedView, Misplaced, MisplacedView, Orphan, OrphanView, Pass, PassView};
use crate::declared::scope::propagated;
use crate::declared::side::{SideView, Walker};
use crate::declared::structs::{cands_upto, first_candidates, grow, grown, struct_at, Cand};
use crate::declared::words::{bare_section, plural, plural_of};
use crate::order::{dedup_texts, deduped, ordered, sort_texts, sorted_texts, stable_order, Key, KeyView};
use crate::text::{capped_size, decimal, digits, extend, join, joined, plus, put, same, strip_end, strip_start, Chars};
use crate::tree::ints;

verus! {

/// What stands in one file.
pub struct FileDeclared {
    /// `(section.knob, line)` of every unread knob declared in this file.
    pub unread_knobs: Vec<(String, usize)>,
    pub reasons: Vec<String>,
}

/// A [`FileDeclared`] by its contents.
pub struct FileView {
    pub unread_knobs: Seq<(Chars, usize)>,
    pub reasons: Seq<Chars>,
}

impl DeepView for FileDeclared {
    type V = FileView;

    open spec fn deep_view(&self) -> FileView {
        FileView { unread_knobs: self.unread_knobs.deep_view(), reasons: self.reasons.deep_view() }
    }
}

/// The counts of a report.
#[derive(Clone, Copy)]
pub struct Totals {
    pub manifests: usize,
    pub other_manifests: usize,
    /// Every declared dependency, dev-dependencies included.
    pub deps: usize,
    pub checked_deps: usize,
    pub orphans: usize,
    pub misplaced: usize,
    /// `[features]` entries other than `default`.
    pub features: usize,
    pub dead_features: usize,
    pub noop_features: usize,
    pub config_structs: usize,
    pub knobs: usize,
    pub unread_knobs: usize,
    pub test_only_knobs: usize,
    pub git_lookups_capped: bool,
}

/// A report of the pass.
pub struct DeclaredReport {
    pub totals: Totals,
    pub notes: Vec<String>,
    pub orphans: Vec<Orphan>,
    pub misplaced: Vec<Misplaced>,
    pub features: Vec<Feature>,
    pub dead_features: Vec<Feature>,
    pub noop_features: Vec<Feature>,
    pub unread_knobs: Vec<UnreadKnob>,
    /// By path.
    pub files: Vec<(String, FileDeclared)>,
}

/// A [`DeclaredReport`] by its contents.
pub struct ReportView {
    pub totals: Totals,
    pub notes: Seq<Chars>,
    pub orphans: Seq<OrphanView>,
    pub misplaced: Seq<MisplacedView>,
    pub features: Seq<FeatureView>,
    pub dead_features: Seq<FeatureView>,
    pub noop_features: Seq<FeatureView>,
    pub unread_knobs: Seq<KnobView>,
    pub files: Seq<(Chars, FileView)>,
}

impl DeepView for DeclaredReport {
    type V = ReportView;

    open spec fn deep_view(&self) -> ReportView {
        ReportView {
            totals: self.totals,
            notes: self.notes.deep_view(),
            orphans: self.orphans.deep_view(),
            misplaced: self.misplaced.deep_view(),
            features: self.features.deep_view(),
            dead_features: self.dead_features.deep_view(),
            noop_features: self.noop_features.deep_view(),
            unread_knobs: self.unread_knobs.deep_view(),
            files: self.files.deep_view(),
        }
    }
}

/// The counts of an empty report.
pub open spec fn no_totals() -> Totals {
    Totals {
        manifests: 0,
        other_manifests: 0,
        deps: 0,
        checked_deps: 0,
        orphans: 0,
        misplaced: 0,
        features: 0,
        dead_features: 0,
        noop_features: 0,
        config_structs: 0,
        knobs: 0,
        unread_knobs: 0,
        test_only_knobs: 0,
        git_lookups_capped: false,
    }
}

/// A report that finds nothing.
pub open spec fn empty_report(other: usize, notes: Seq<Chars>) -> ReportView {
    ReportView {
        totals: Totals { other_manifests: other, ..no_totals() },
        notes,
        orphans: Seq::empty(),
        misplaced: Seq::empty(),
        features: Seq::empty(),
        dead_features: Seq::empty(),
        noop_features: Seq::empty(),
        unread_knobs: Seq::empty(),
        files: Seq::empty(),
    }
}

impl DeclaredReport {
    /// A report that finds nothing.
    pub fn empty(other: usize, notes: Vec<String>) -> (r: DeclaredReport)
        ensures
            r.deep_view() == empty_report(other, notes.deep_view()),
    {
        let r = DeclaredReport {
            totals: Totals {
                manifests: 0,
                other_manifests: other,
                deps: 0,
                checked_deps: 0,
                orphans: 0,
                misplaced: 0,
                features: 0,
                dead_features: 0,
                noop_features: 0,
                config_structs: 0,
                knobs: 0,
                unread_knobs: 0,
                test_only_knobs: 0,
                git_lookups_capped: false,
            },
            notes,
            orphans: Vec::new(),
            misplaced: Vec::new(),
            features: Vec::new(),
            dead_features: Vec::new(),
            noop_features: Vec::new(),
            unread_knobs: Vec::new(),
            files: Vec::new(),
        };
        assert(r.orphans.deep_view() =~= Seq::<OrphanView>::empty());
        assert(r.misplaced.deep_view() =~= Seq::<MisplacedView>::empty());
        assert(r.features.deep_view() =~= Seq::<FeatureView>::empty());
        assert(r.unread_knobs.deep_view() =~= Seq::<KnobView>::empty());
        assert(r.files.deep_view() =~= Seq::<(Chars, FileView)>::empty());
        r
    }
}

// ---------- files with unread knobs ----------

/// The knobs a finding names in its file.
pub open spec fn named_knobs(k: KnobView, n: int) -> Seq<(Chars, usize)>
    decreases n,
{
    if n <= 0 {
        Seq::empty()
    } else {
        named_knobs(k, n - 1).push((bare_section(k.section) + "."@ + k.unread[n - 1], k.start_line))
    }
}

/// What one more finding adds to its file.
pub open spec fn file_step(f: FileView, k: KnobView) -> FileView {
    FileView {
        reasons: f.reasons.push(k.line_text),
        unread_knobs: if k.test_only {
            f.unread_knobs.push((k.section, k.start_line))
        } else {
            f.unread_knobs + named_knobs(k, k.unread.len() as int)
        },
    }
}

/// What the first `n` findings say of a file.
pub open spec fn file_upto(list: Seq<KnobView>, path: Chars, n: int) -> FileView
    decreases n,
{
    if n <= 0 {
        FileView { unread_knobs: Seq::empty(), reasons: Seq::empty() }
    } else if list[n - 1].file == path {
        file_step(file_upto(list, path, n - 1), list[n - 1])
    } else {
        file_upto(list, path, n - 1)
    }
}

/// The files of findings.
pub open spec fn finding_files(list: Seq<KnobView>) -> Seq<Chars> {
    Seq::new(list.len(), |k: int| list[k].file)
}

/// The files with unread knobs, by path.
pub open spec fn files_of(list: Seq<KnobView>) -> Seq<(Chars, FileView)> {
    let paths = deduped(sorted_texts(finding_files(list)));
    Seq::new(paths.len(), |k: int| (paths[k], file_upto(list, paths[k], list.len() as int)))
}

fn add_named(k: &UnreadKnob, out: &mut Vec<(String, usize)>)
    ensures
        final(out).deep_view() == old(out).deep_view() + named_knobs(k.deep_view(), k.deep_view().unread.len() as int),
{
    let ghost was = out.deep_view();
    let ghost kv = k.deep_view();
    let bare = strip_end(strip_start(k.section.as_str(), "[").as_str(), "]");
    let mut n: usize = 0;
    assert(was + Seq::<(Chars, usize)>::empty() =~= was);
    while n < k.unread.len()
        invariant
            n <= k.unread.len(),
            kv == k.deep_view(),
            bare@ == bare_section(kv.section),
            out.deep_view() == was + named_knobs(kv, n as int),
        decreases k.unread.len() - n,
    {
        assert(kv.unread[n as int] == k.unread@[n as int]@);
        let x = plus(plus(bare.clone(), "."), k.unread[n].as_str());
        let ghost rest = named_knobs(kv, n as int);
        let ghost y = (x@, k.start_line);
        put(out, (x, k.start_line));
        assert(was + rest.push(y) =~= (was + rest).push(y));
        n = n + 1;
    }
    assert(k.unread.len() == kv.unread.len());
}

fn file_of(list: &Vec<UnreadKnob>, path: &str) -> (r: FileDeclared)
    ensures
        r.deep_view() == file_upto(list.deep_view(), path@, list.len() as int),
{
    let ghost view = list.deep_view();
    let mut knobs: Vec<(String, usize)> = Vec::new();
    let mut reasons: Vec<String> = Vec::new();
    assert(knobs.deep_view() =~= Seq::<(Chars, usize)>::empty());
    assert(reasons.deep_view() =~= Seq::<Chars>::empty());
    let mut n: usize = 0;
    while n < list.len()
        invariant
            n <= list.len(),
            view == list.deep_view(),
            file_upto(view, path@, n as int) == (FileView {
                unread_knobs: knobs.deep_view(),
                reasons: reasons.deep_view(),
            }),
        decreases list.len() - n,
    {
        let k = &list[n];
        assert(view[n as int] == k.deep_view());
        if same(k.file.as_str(), path) {
            put(&mut reasons, k.line_text.clone());
            if k.test_only {
                put(&mut knobs, (k.section.clone(), k.start_line));
            } else {
                add_named(k, &mut knobs);
            }
        }
        n = n + 1;
    }
    FileDeclared { unread_knobs: knobs, reasons }
}

fn file_list(list: &Vec<UnreadKnob>) -> (out: Vec<(String, FileDeclared)>)
    ensures
        out.deep_view() == files_of(list.deep_view()),
{
    let ghost view = list.deep_view();
    let mut all: Vec<String> = Vec::new();
    let mut n: usize = 0;
    while n < list.len()
        invariant
            n <= list.len(),
            view == list.deep_view(),
            all.len() == n,
            forall|j: int| 0 <= j < n ==> (#[trigger] all@[j])@ == view[j].file,
        decreases list.len() - n,
    {
        assert(view[n as int] == list@[n as int].deep_view());
        all.push(list[n].file.clone());
        n = n + 1;
    }
    assert(all.deep_view() =~= finding_files(view));
    let paths = dedup_texts(&sort_texts(&all));
    let ghost pv = paths.deep_view();
    let ghost want = files_of(view);
    let mut out: Vec<(String, FileDeclared)> = Vec::new();
    let mut n: usize = 0;
    while n < paths.len()
        invariant
            n <= paths.len(),
            view == list.deep_view(),
            view.len() == list.len(),
            pv == paths.deep_view(),
            pv == deduped(sorted_texts(finding_files(view))),
            want == files_of(view),
            out.len() == n,
            forall|j: int| 0 <= j < n ==> (#[trigger] out@[j]).deep_view() == want[j],
        decreases paths.len() - n,
    {
        assert(pv[n as int] == paths@[n as int]@);
        let x = (paths[n].clone(), file_of(list, paths[n].as_str()));
        assert(x.deep_view() == want[n as int]);
        out.push(x);
        n = n + 1;
    }
    assert(out.deep_view() =~= want);
    out
}

// ---------- counts of findings ----------

/// How many knobs the first `n` findings report.
pub open spec fn unread_upto(list: Seq<KnobView>, n: int) -> nat
    decreases n,
{
    if n <= 0 {
        0
    } else {
        let k = list[n - 1];
        unread_upto(list, n - 1) + (if k.test_only {
            0
        } else if k.rollup {
            k.knobs.len()
        } else {
            k.unread.len()
        })
    }
}

/// How many of the first `n` findings are of knobs only tests read.
pub open spec fn tested_upto(list: Seq<KnobView>, n: int) -> nat
    decreases n,
{
    if n <= 0 {
        0
    } else {
        tested_upto(list, n - 1) + (if list[n - 1].test_only {
            1nat
        } else {
            0nat
        })
    }
}

/// How many knobs the first `n` candidates have.
pub open spec fn knobs_upto(sides: Seq<SideView>, cands: Seq<Cand>, n: int) -> nat
    decreases n,
{
    if n <= 0 {
        0
    } else {
        let fields = struct_at(sides, cands[n - 1]).fields;
        knobs_upto(sides, cands, n - 1) + knob_keys(fields, fields.len() as int).len()
    }
}

fn count_unread(list: &Vec<UnreadKnob>) -> (r: (usize, usize))
    ensures
        r.0 == capped_size(unread_upto(list.deep_view(), list.len() as int)),
        r.1 == tested_upto(list.deep_view(), list.len() as int),
{
    let ghost view = list.deep_view();
    let mut unread: usize = 0;
    let mut tested: usize = 0;
    let mut n: usize = 0;
    while n < list.len()
        invariant
            n <= list.len(),
            tested <= n,
            view == list.deep_view(),
            unread == capped_size(unread_upto(view, n as int)),
            tested == tested_upto(view, n as int),
        decreases list.len() - n,
    {
        let k = &list[n];
        assert(view[n as int] == k.deep_view());
        assert(k.knobs.len() == k.knobs.deep_view().len());
        assert(k.unread.len() == k.unread.deep_view().len());
        if k.test_only {
            tested = tested + 1;
        } else if k.rollup {
            unread = unread.saturating_add(k.knobs.len());
        } else {
            unread = unread.saturating_add(k.unread.len());
        }
        n = n + 1;
    }
    (unread, tested)
}

fn count_knobs(l: &Links) -> (n: usize)
    requires
        l.ok(),
    ensures
        n == capped_size(knobs_upto(l@.sides, l@.cands, l@.cands.len() as int)),
{
    let mut n: usize = 0;
    let mut c: usize = 0;
    while c < l.cands.len()
        invariant
            c <= l.cands.len(),
            l.ok(),
            n == capped_size(knobs_upto(l@.sides, l@.cands, c as int)),
        decreases l.cands.len() - c,
    {
        let fields = &l.decl(c).fields;
        assert(fields.len() == fields.deep_view().len());
        let keys = keys_of(fields);
        assert(keys.len() == keys.deep_view().len());
        n = n.saturating_add(keys.len());
        c = c + 1;
    }
    n
}

// ---------- orphans and features ----------

/// What was found before history is asked.
pub struct SurveyView {
    pub pass: PassView,
    pub checked: CheckedView,
    pub features: Seq<FeatureView>,
    pub work: Seq<LookupView>,
}

/// What manifests and sides give before history is asked.
pub open spec fn survey_of(p: PassView, ci: Seq<(Chars, Chars)>) -> SurveyView {
    let n = p.manifests.len() as int;
    let checked = checked_upto(p, n);
    let features = features_upto(p, checked.idents, ci, n);
    SurveyView { pass: p, checked, features, work: asked(p, checked.orphans, features) }
}

/// The pass over sides and manifests.
pub open spec fn pass_of(sides: Seq<SideView>, ms: Seq<ManifestView>, docs: Seq<(Chars, Chars)>, cfg: Declared) -> PassView {
    PassView { sides, tests: propagated(sides, sides.len() as int), manifests: ms, docs, cfg }
}

/// The answer about finding `i`.
pub open spec fn answer_at(s: SurveyView, h: Option<HistoryView>, feature: bool, i: int) -> Option<AnswerView> {
    answer_to(s.work, h, s.pass.cfg.max_git_lookups, feature, i as usize)
}

/// The time of the newest commit, where history is asked.
pub open spec fn head_of(h: Option<HistoryView>) -> i64 {
    match h {
        Some(x) => x.head,
        None => 0,
    }
}

/// Orphan `i` with its line.
pub open spec fn orphan_at(s: SurveyView, h: Option<HistoryView>, i: int) -> OrphanView {
    let o = s.checked.orphans[i];
    settled_orphan(o, answer_at(s, h, false, i), head_of(h), scope_label(s.pass, o.manifest))
}

/// Feature `i` with its line.
pub open spec fn feature_told(s: SurveyView, h: Option<HistoryView>, i: int) -> FeatureView {
    let f = s.features[i];
    settled_feature(f, answer_at(s, h, true, i), scope_label(s.pass, f.manifest))
}

/// Every feature with its line.
pub open spec fn all_told(s: SurveyView, h: Option<HistoryView>) -> Seq<FeatureView> {
    Seq::new(s.features.len(), |i: int| feature_told(s, h, i))
}

/// The orphans among the first `n` that are old enough.
pub open spec fn old_orphans(s: SurveyView, h: Option<HistoryView>, n: int) -> Seq<OrphanView>
    decreases n,
{
    if n <= 0 {
        Seq::empty()
    } else if too_young(answer_at(s, h, false, n - 1), s.pass.cfg.min_age_commits) {
        old_orphans(s, h, n - 1)
    } else {
        old_orphans(s, h, n - 1).push(orphan_at(s, h, n - 1))
    }
}

/// The dead features among the first `n` that print: they gate an orphan (bare ones behind the
/// setting) and are old enough.
pub open spec fn printed_dead(s: SurveyView, h: Option<HistoryView>, n: int) -> Seq<FeatureView>
    decreases n,
{
    if n <= 0 {
        Seq::empty()
    } else {
        let before = printed_dead(s, h, n - 1);
        let f = feature_told(s, h, n - 1);
        if f.state == FeatureState::Dead && !too_young(answer_at(s, h, true, n - 1), s.pass.cfg.min_age_commits) && (
        f.gates.len() > 0 || s.pass.cfg.report_bare_dead_features) {
            before.push(f)
        } else {
            before
        }
    }
}

/// The no-op features among the first `n`.
pub open spec fn noops(list: Seq<FeatureView>, n: int) -> Seq<FeatureView>
    decreases n,
{
    if n <= 0 {
        Seq::empty()
    } else if list[n - 1].state == FeatureState::Noop {
        noops(list, n - 1).push(list[n - 1])
    } else {
        noops(list, n - 1)
    }
}

/// How many of the first `n` features are in a state; of the dead ones, how many gate nothing.
pub open spec fn in_state(list: Seq<FeatureView>, state: FeatureState, bare: bool, n: int) -> nat
    decreases n,
{
    if n <= 0 {
        0
    } else {
        in_state(list, state, bare, n - 1) + (if list[n - 1].state == state && (!bare || list[n - 1].gates.len() == 0) {
            1nat
        } else {
            0nat
        })
    }
}

/// How orphans are ordered: the most commits since their birth first, then by manifest and line.
pub open spec fn orphan_key(o: OrphanView) -> KeyView {
    let n = match o.commits_since {
        Some(n) => n,
        None => 0,
    };
    KeyView { a: (usize::MAX - n) as usize, b: 0, s: o.manifest, c: o.line }
}

/// The keys of orphans.
pub open spec fn orphan_keys(list: Seq<OrphanView>) -> Seq<KeyView> {
    Seq::new(list.len(), |k: int| orphan_key(list[k]))
}

/// Orphans in order.
pub open spec fn sorted_orphans(list: Seq<OrphanView>) -> Seq<OrphanView> {
    let order = ordered(orphan_keys(list), list.len() as int);
    Seq::new(order.len(), |k: int| list[order[k]])
}

/// Some feature gates a dependency of a manifest.
pub open spec fn prints_gate(list: Seq<FeatureView>, manifest: Chars, name: Chars) -> bool {
    exists|k: int| 0 <= k < list.len() && (#[trigger] list[k]).manifest == manifest && gate_named(list[k].gates, name)
}

/// One of the gates has a name.
pub open spec fn gate_named(gates: Seq<(Chars, usize)>, name: Chars) -> bool {
    exists|k: int| 0 <= k < gates.len() && (#[trigger] gates[k]).0 == name
}

/// How many of the first `n` orphans are optional and print through no feature.
pub open spec fn unprinted(orphans: Seq<OrphanView>, dead: Seq<FeatureView>, n: int) -> nat
    decreases n,
{
    if n <= 0 {
        0
    } else {
        let o = orphans[n - 1];
        unprinted(orphans, dead, n - 1) + (if o.optional && !prints_gate(dead, o.manifest, o.name) {
            1nat
        } else {
            0nat
        })
    }
}

// ---------- notes ----------

/// One more note, where there is something to note.
pub open spec fn noted(notes: Seq<Chars>, when: bool, note: Chars) -> Seq<Chars> {
    if when {
        notes.push(note)
    } else {
        notes
    }
}

/// The side-effect dependencies, each once and in order.
pub open spec fn effects(c: CheckedView) -> Seq<Chars> {
    deduped(sorted_texts(c.side_effect))
}

/// What a report says besides its findings.
pub open spec fn notes_of(
    cfg: Declared,
    c: CheckedView,
    young: nat,
    noop: nat,
    bare: nat,
    over: bool,
    hidden: nat,
) -> Seq<Chars> {
    let side = effects(c);
    let crates = c.silenced;
    let a = noted(
        Seq::empty(),
        c.dev_skipped > 0,
        plural_of(c.dev_skipped as nat, "dev-dependency"@, "dev-dependencies"@) + " not checked (check_dev_dependencies)"@,
    );
    let b = noted(
        a,
        side.len() > 0,
        plural_of(side.len(), "dep"@, "deps"@) + " on the side-effect list not checked: "@ + joined(side, ", "@),
    );
    let d = noted(
        b,
        crates.len() > 0,
        plural_of(crates.len(), "crate root"@, "crate roots"@) + " silence"@ + (if crates.len() == 1 {
            "s"@
        } else {
            ""@
        }) + " warnings with #![allow]: "@ + joined(crates, ", "@) + (if cfg.skip_lint_silenced_crates {
            " (skipped)"@
        } else {
            ""@
        }),
    );
    let e = noted(
        d,
        young > 0,
        plural_of(young, "orphan"@, "orphans"@) + " younger than min_age_commits ("@ + digits(cfg.min_age_commits as nat)
            + ") not reported"@,
    );
    let f = noted(
        e,
        noop > 0 && !cfg.report_noop_features,
        plural_of(noop, "no-op feature"@, "no-op features"@)
            + " (`= []`, no consumer) suppressed; report_noop_features lists them"@,
    );
    let g = noted(
        f,
        bare > 0 && !cfg.report_bare_dead_features,
        plural_of(bare, "dead feature"@, "dead features"@)
            + " gating no dependency suppressed; report_bare_dead_features lists them"@,
    );
    let i = noted(
        g,
        over,
        "git enrichment capped at "@ + digits(cfg.max_git_lookups as nat)
            + " lookups (max_git_lookups); later findings carry no history"@,
    );
    noted(
        i,
        hidden > 0,
        plural_of(hidden, "orphaned dep is"@, "orphaned deps are"@)
            + " optional and gated by a live or unreported feature: not an orphan line"@,
    )
}

/// What a report says of the search for knobs.
pub open spec fn knob_notes(skipped: nat, suppressed: usize) -> Seq<Chars> {
    let a = noted(
        Seq::empty(),
        skipped > 0,
        plural_of(skipped, "crate"@, "crates"@)
            + " with Deserialize structs but no bin target skipped (require_bin_target)"@,
    );
    noted(
        a,
        suppressed > 0,
        plural_of(suppressed as nat, "unread knob line"@, "unread knob lines"@)
            + " with no read sibling and no doc mention not reported (require_sibling_read_or_doc)"@,
    )
}

/// More questions than may be asked.
pub open spec fn over_cap(s: SurveyView, h: Option<HistoryView>) -> bool {
    h is Some && s.work.len() > s.pass.cfg.max_git_lookups
}

/// The search for knobs over a pass.
pub open spec fn knobs_of(p: PassView, docs: Seq<(Chars, Chars)>) -> KnobsView {
    let cands = grown(p.sides, p.tests, cands_upto(p, p.manifests.len() as int).0, 0);
    KnobsView {
        pass: p,
        links: LinksView { sides: p.sides, cands, parents: linked_upto(p.sides, cands, cands.len() as int) },
        docs,
    }
}

/// The report on manifests that were read: `other` manifests of other kinds, and `notes` so far.
pub open spec fn report_of(
    p: PassView,
    ci: Seq<(Chars, Chars)>,
    public: Seq<(Chars, Chars)>,
    h: Option<HistoryView>,
    other: usize,
    notes: Seq<Chars>,
) -> ReportView {
    let s = survey_of(p, ci);
    let c = s.checked;
    let told = all_told(s, h);
    let dead = printed_dead(s, h, told.len() as int);
    let old = old_orphans(s, h, c.orphans.len() as int);
    let orphans = sorted_orphans(old);
    let noop = in_state(told, FeatureState::Noop, false, told.len() as int);
    let e = knobs_of(p, public);
    let found = found(e);
    let k = found.findings;
    ReportView {
        totals: Totals {
            manifests: p.manifests.len() as usize,
            other_manifests: other,
            deps: c.deps,
            checked_deps: c.checked,
            orphans: old.len() as usize,
            misplaced: 0,
            features: told.len() as usize,
            dead_features: in_state(told, FeatureState::Dead, false, told.len() as int) as usize,
            noop_features: noop as usize,
            config_structs: e.links.cands.len() as usize,
            knobs: capped_size(knobs_upto(p.sides, e.links.cands, e.links.cands.len() as int)),
            unread_knobs: capped_size(unread_upto(k, k.len() as int)),
            test_only_knobs: tested_upto(k, k.len() as int) as usize,
            git_lookups_capped: over_cap(s, h),
        },
        notes: notes + notes_of(
            p.cfg,
            c,
            (c.orphans.len() - old.len()) as nat,
            noop,
            in_state(told, FeatureState::Dead, true, told.len() as int),
            over_cap(s, h),
            unprinted(orphans, dead, orphans.len() as int),
        ) + knob_notes(cands_upto(p, p.manifests.len() as int).1, found.suppressed),
        orphans,
        misplaced: c.misplaced,
        features: told,
        dead_features: dead,
        noop_features: if p.cfg.report_noop_features {
            noops(told, told.len() as int)
        } else {
            Seq::empty()
        },
        unread_knobs: k,
        files: files_of(k),
    }
}

// ---------- the pass ----------

/// What was found before history is asked.
pub struct Survey {
    pub checked: Checked,
    pub features: Vec<Feature>,
    pub work: Vec<Lookup>,
}

impl Survey {
    /// It is the survey of a pass.
    pub open spec fn of(&self, s: SurveyView) -> bool {
        self.checked@ == s.checked && self.features.deep_view() == s.features && self.work.deep_view() == s.work
    }
}

/// What manifests and sides give before history is asked.
pub fn survey(p: &Pass, ci: &Vec<(String, String)>) -> (r: Survey)
    requires
        p.ok(),
    ensures
        r.of(survey_of(p@, ci.deep_view())),
{
    let checked = check_deps(p);
    let features = check_features(p, &checked.idents, ci);
    let work = lookups(p, &checked.orphans, &features);
    Survey { checked, features, work }
}

fn head(h: &Option<History>) -> (r: i64)
    ensures
        r == head_of(h.deep_view()),
{
    match h {
        Some(x) => x.head,
        None => 0,
    }
}

fn told_features(p: &Pass, s: &Survey, h: &Option<History>, Ghost(sv): Ghost<SurveyView>) -> (out: Vec<Feature>)
    requires
        p.ok(),
        s.of(sv),
        sv.pass == p@,
    ensures
        out.deep_view() == all_told(sv, h.deep_view()),
{
    let ghost hv = h.deep_view();
    let ghost want = all_told(sv, hv);
    let mut out: Vec<Feature> = Vec::new();
    let mut i: usize = 0;
    while i < s.features.len()
        invariant
            i <= s.features.len(),
            p.ok(),
            s.of(sv),
            sv.pass == p@,
            hv == h.deep_view(),
            want == all_told(sv, hv),
            out.len() == i,
            forall|j: int| 0 <= j < i ==> (#[trigger] out@[j]).deep_view() == want[j],
        decreases s.features.len() - i,
    {
        let f = &s.features[i];
        assert(sv.features[i as int] == f.deep_view());
        let a = answer(&s.work, h, p.cfg.max_git_lookups, true, i);
        let x = settle_feature(f, a, label_of(p, f.manifest.as_str()).as_str());
        assert(x.deep_view() == want[i as int]);
        out.push(x);
        i = i + 1;
    }
    assert(s.features.len() == sv.features.len());
    assert(out.deep_view() =~= want);
    out
}

fn old_list(p: &Pass, s: &Survey, h: &Option<History>, Ghost(sv): Ghost<SurveyView>) -> (out: Vec<Orphan>)
    requires
        p.ok(),
        s.of(sv),
        sv.pass == p@,
    ensures
        out.deep_view() == old_orphans(sv, h.deep_view(), sv.checked.orphans.len() as int),
        out.len() <= s.checked.orphans.len(),
{
    let ghost hv = h.deep_view();
    let mut out: Vec<Orphan> = Vec::new();
    assert(out.deep_view() =~= Seq::<OrphanView>::empty());
    let mut i: usize = 0;
    while i < s.checked.orphans.len()
        invariant
            i <= s.checked.orphans.len(),
            p.ok(),
            s.of(sv),
            sv.pass == p@,
            hv == h.deep_view(),
            out.len() <= i,
            out.deep_view() == old_orphans(sv, hv, i as int),
        decreases s.checked.orphans.len() - i,
    {
        let o = &s.checked.orphans[i];
        assert(sv.checked.orphans[i as int] == o.deep_view());
        let a = answer(&s.work, h, p.cfg.max_git_lookups, false, i);
        if !is_young(a, p.cfg.min_age_commits) {
            let x = settle_orphan(o, a, head(h), label_of(p, o.manifest.as_str()).as_str());
            put(&mut out, x);
            assert(out.len() == out.deep_view().len());
        }
        i = i + 1;
    }
    assert(s.checked.orphans.len() == sv.checked.orphans.len());
    out
}

fn dead_list(p: &Pass, s: &Survey, h: &Option<History>, told: &Vec<Feature>, Ghost(sv): Ghost<SurveyView>) -> (out: Vec<Feature>)
    requires
        s.of(sv),
        sv.pass == p@,
        told.deep_view() == all_told(sv, h.deep_view()),
    ensures
        out.deep_view() == printed_dead(sv, h.deep_view(), told.len() as int),
{
    let ghost hv = h.deep_view();
    let ghost tv = told.deep_view();
    let mut out: Vec<Feature> = Vec::new();
    assert(out.deep_view() =~= Seq::<FeatureView>::empty());
    assert(tv.len() == told.len());
    let mut i: usize = 0;
    while i < told.len()
        invariant
            i <= told.len(),
            s.of(sv),
            sv.pass == p@,
            hv == h.deep_view(),
            tv == told.deep_view(),
            tv.len() == told.len(),
            tv == all_told(sv, hv),
            out.deep_view() == printed_dead(sv, hv, i as int),
        decreases told.len() - i,
    {
        let f = &told[i];
        assert(tv[i as int] == f.deep_view());
        assert(tv[i as int] == feature_told(sv, hv, i as int));
        assert(f.gates.len() == f.gates.deep_view().len());
        let a = answer(&s.work, h, p.cfg.max_git_lookups, true, i);
        if f.state == FeatureState::Dead && !is_young(a, p.cfg.min_age_commits) && (f.gates.len() > 0
            || p.cfg.report_bare_dead_features) {
            put(&mut out, copy_feature(f));
        }
        i = i + 1;
    }
    out
}

fn noop_list(list: &Vec<Feature>) -> (out: Vec<Feature>)
    ensures
        out.deep_view() == noops(list.deep_view(), list.len() as int),
{
    let ghost view = list.deep_view();
    let mut out: Vec<Feature> = Vec::new();
    assert(out.deep_view() =~= Seq::<FeatureView>::empty());
    let mut i: usize = 0;
    while i < list.len()
        invariant
            i <= list.len(),
            view == list.deep_view(),
            out.deep_view() == noops(view, i as int),
        decreases list.len() - i,
    {
        assert(view[i as int] == list@[i as int].deep_view());
        if list[i].state == FeatureState::Noop {
            put(&mut out, copy_feature(&list[i]));
        }
        i = i + 1;
    }
    out
}

fn count_state(list: &Vec<Feature>, state: FeatureState, bare: bool) -> (n: usize)
    ensures
        n == in_state(list.deep_view(), state, bare, list.len() as int),
{
    let ghost view = list.deep_view();
    let mut n: usize = 0;
    let mut i: usize = 0;
    while i < list.len()
        invariant
            i <= list.len(),
            n <= i,
            view == list.deep_view(),
            n == in_state(view, state, bare, i as int),
        decreases list.len() - i,
    {
        assert(view[i as int] == list@[i as int].deep_view());
        assert(list@[i as int].gates.len() == view[i as int].gates.len());
        if list[i].state == state && (!bare || list[i].gates.len() == 0) {
            n = n + 1;
        }
        i = i + 1;
    }
    n
}

fn sort_orphans(list: Vec<Orphan>) -> (out: Vec<Orphan>)
    ensures
        out.deep_view() == sorted_orphans(list.deep_view()),
        out.len() == list.len(),
{
    let ghost view = list.deep_view();
    let mut keys: Vec<Key> = Vec::new();
    let mut i: usize = 0;
    while i < list.len()
        invariant
            i <= list.len(),
            view == list.deep_view(),
            keys.len() == i,
            forall|j: int| 0 <= j < i ==> (#[trigger] keys@[j]).deep_view() == orphan_key(view[j]),
        decreases list.len() - i,
    {
        assert(view[i as int] == list@[i as int].deep_view());
        let n: usize = match list[i].commits_since {
            Some(n) => n,
            None => 0,
        };
        let key = Key { a: usize::MAX - n, b: 0, s: list[i].manifest.clone(), c: list[i].line };
        assert(key.deep_view() == orphan_key(view[i as int]));
        keys.push(key);
        i = i + 1;
    }
    assert(keys.deep_view() =~= orphan_keys(view));
    let order = stable_order(&keys);
    let ghost ov = ints(order@);
    let ghost want = sorted_orphans(view);
    let mut out: Vec<Orphan> = Vec::new();
    let mut i: usize = 0;
    while i < order.len()
        invariant
            i <= order.len(),
            view == list.deep_view(),
            ov == ints(order@),
            ov == ordered(orphan_keys(view), view.len() as int),
            want == sorted_orphans(view),
            forall|k: int| 0 <= k < order.len() ==> #[trigger] order@[k] < list.len(),
            out.len() == i,
            forall|j: int| 0 <= j < i ==> (#[trigger] out@[j]).deep_view() == want[j],
        decreases order.len() - i,
    {
        assert(order@[i as int] < list.len());
        assert(ov[i as int] == order@[i as int] as int);
        let o = &list[order[i]];
        assert(view[ov[i as int]] == o.deep_view());
        let x = copy_orphan(o);
        assert(x.deep_view() == want[i as int]);
        out.push(x);
        i = i + 1;
    }
    assert(out.deep_view() =~= want);
    out
}

fn copy_orphan(o: &Orphan) -> (r: Orphan)
    ensures
        r.deep_view() == o.deep_view(),
{
    Orphan {
        manifest: o.manifest.clone(),
        name: o.name.clone(),
        ident: o.ident.clone(),
        line: o.line,
        section: o.section.clone(),
        optional: o.optional,
        gated_by: crate::text::copy_list(&o.gated_by),
        birth: match &o.birth {
            Some(x) => Some((x.0.clone(), x.1.clone())),
            None => None,
        },
        age_days: o.age_days,
        commits_since: o.commits_since,
        ever_imported: match &o.ever_imported {
            Some(x) => Some((x.0.clone(), x.1.clone(), x.2.clone())),
            None => None,
        },
        doc_mention: crate::declared::orphans::copy_place(&o.doc_mention),
        lint_silenced: crate::declared::orphans::copy_place(&o.lint_silenced),
        line_text: o.line_text.clone(),
    }
}

fn has_gate(gates: &Vec<(String, usize)>, name: &str) -> (r: bool)
    ensures
        r == gate_named(gates.deep_view(), name@),
{
    let ghost view = gates.deep_view();
    let mut k: usize = 0;
    while k < gates.len()
        invariant
            k <= gates.len(),
            view == gates.deep_view(),
            forall|j: int| 0 <= j < k ==> (#[trigger] view[j]).0 != name@,
        decreases gates.len() - k,
    {
        assert(view[k as int] == gates@[k as int].deep_view());
        if same(gates[k].0.as_str(), name) {
            return true;
        }
        k = k + 1;
    }
    false
}

fn is_printed(list: &Vec<Feature>, manifest: &str, name: &str) -> (r: bool)
    ensures
        r == prints_gate(list.deep_view(), manifest@, name@),
{
    let ghost view = list.deep_view();
    let mut k: usize = 0;
    while k < list.len()
        invariant
            k <= list.len(),
            view == list.deep_view(),
            forall|j: int|
                0 <= j < k ==> !((#[trigger] view[j]).manifest == manifest@ && gate_named(view[j].gates, name@)),
        decreases list.len() - k,
    {
        assert(view[k as int] == list@[k as int].deep_view());
        if same(list[k].manifest.as_str(), manifest) && has_gate(&list[k].gates, name) {
            return true;
        }
        k = k + 1;
    }
    false
}

fn count_unprinted(orphans: &Vec<Orphan>, dead: &Vec<Feature>) -> (n: usize)
    ensures
        n == unprinted(orphans.deep_view(), dead.deep_view(), orphans.len() as int),
{
    let ghost view = orphans.deep_view();
    let mut n: usize = 0;
    let mut k: usize = 0;
    while k < orphans.len()
        invariant
            k <= orphans.len(),
            n <= k,
            view == orphans.deep_view(),
            n == unprinted(view, dead.deep_view(), k as int),
        decreases orphans.len() - k,
    {
        let o = &orphans[k];
        assert(view[k as int] == o.deep_view());
        if o.optional && !is_printed(dead, o.manifest.as_str(), o.name.as_str()) {
            n = n + 1;
        }
        k = k + 1;
    }
    n
}

fn note(notes: &mut Vec<String>, when: bool, text: String)
    ensures
        final(notes).deep_view() == noted(old(notes).deep_view(), when, text@),
{
    if when {
        put(notes, text);
    }
}

#[verifier::spinoff_prover]
#[verifier::rlimit(60)]
fn note_list(cfg: &Declared, c: &Checked, young: usize, noop: usize, bare: usize, over: bool, hidden: usize) -> (out: Vec<String>)
    ensures
        out.deep_view() == notes_of(*cfg, c@, young as nat, noop as nat, bare as nat, over, hidden as nat),
{
    let side = dedup_texts(&sort_texts(&c.side_effect));
    assert(side.len() == side.deep_view().len());
    assert(c.silenced.len() == c.silenced.deep_view().len());
    let mut out: Vec<String> = Vec::new();
    assert(out.deep_view() =~= Seq::<Chars>::empty());
    note(
        &mut out,
        c.dev_skipped > 0,
        plus(
            plural(c.dev_skipped, "dev-dependency", "dev-dependencies"),
            " not checked (check_dev_dependencies)",
        ),
    );
    let effect = plus(
        plus(plural(side.len(), "dep", "deps"), " on the side-effect list not checked: "),
        join(&side, ", ").as_str(),
    );
    note(&mut out, side.len() > 0, effect);
    let mut silent = plural(c.silenced.len(), "crate root", "crate roots");
    silent.append(" silence");
    silent.append(
        if c.silenced.len() == 1 {
            "s"
        } else {
            ""
        },
    );
    silent.append(" warnings with #![allow]: ");
    silent.append(join(&c.silenced, ", ").as_str());
    silent.append(
        if cfg.skip_lint_silenced_crates {
            " (skipped)"
        } else {
            ""
        },
    );
    note(&mut out, c.silenced.len() > 0, silent);
    let mut held = plural(young, "orphan", "orphans");
    held.append(" younger than min_age_commits (");
    held.append(decimal(cfg.min_age_commits).as_str());
    held.append(") not reported");
    note(&mut out, young > 0, held);
    note(
        &mut out,
        noop > 0 && !cfg.report_noop_features,
        plus(
            plural(noop, "no-op feature", "no-op features"),
            " (`= []`, no consumer) suppressed; report_noop_features lists them",
        ),
    );
    note(
        &mut out,
        bare > 0 && !cfg.report_bare_dead_features,
        plus(
            plural(bare, "dead feature", "dead features"),
            " gating no dependency suppressed; report_bare_dead_features lists them",
        ),
    );
    let mut cap = "git enrichment capped at ".to_owned();
    cap.append(decimal(cfg.max_git_lookups).as_str());
    cap.append(" lookups (max_git_lookups); later findings carry no history");
    note(&mut out, over, cap);
    note(
        &mut out,
        hidden > 0,
        plus(
            plural(hidden, "orphaned dep is", "orphaned deps are"),
            " optional and gated by a live or unreported feature: not an orphan line",
        ),
    );
    out
}

fn add_knob_notes(out: &mut Vec<String>, skipped: usize, suppressed: usize)
    ensures
        final(out).deep_view() == old(out).deep_view() + knob_notes(skipped as nat, suppressed),
{
    let ghost was = out.deep_view();
    let mut own: Vec<String> = Vec::new();
    assert(own.deep_view() =~= Seq::<Chars>::empty());
    note(
        &mut own,
        skipped > 0,
        plus(
            plural(skipped, "crate", "crates"),
            " with Deserialize structs but no bin target skipped (require_bin_target)",
        ),
    );
    note(
        &mut own,
        suppressed > 0,
        plus(
            plural(suppressed, "unread knob line", "unread knob lines"),
            " with no read sibling and no doc mention not reported (require_sibling_read_or_doc)",
        ),
    );
    extend(out, &own);
}

/// The report on manifests that were read: `other` manifests of other kinds, and `notes` so far.
#[verifier::spinoff_prover]
#[verifier::rlimit(60)]
pub fn report(
    p: &Pass,
    ci: &Vec<(String, String)>,
    public: &Vec<(String, String)>,
    h: &Option<History>,
    other: usize,
    notes: &Vec<String>,
) -> (r: DeclaredReport)
    requires
        p.ok(),
    ensures
        r.deep_view() == report_of(p@, ci.deep_view(), public.deep_view(), h.deep_view(), other, notes.deep_view()),
{
    let ghost sv = survey_of(p@, ci.deep_view());
    let ghost hv = h.deep_view();
    let s = survey(p, ci);
    let told = told_features(p, &s, h, Ghost(sv));
    let dead = dead_list(p, &s, h, &told, Ghost(sv));
    let old = old_list(p, &s, h, Ghost(sv));
    assert(told.len() == told.deep_view().len());
    assert(old.len() == old.deep_view().len());
    assert(s.checked.orphans.len() == sv.checked.orphans.len());
    assert(s.work.len() == sv.work.len());
    assert(p.manifests.len() == p@.manifests.len());
    let n_old: usize = old.len();
    let young: usize = s.checked.orphans.len() - n_old;
    let noop: usize = count_state(&told, FeatureState::Noop, false);
    let n_dead: usize = count_state(&told, FeatureState::Dead, false);
    let bare: usize = count_state(&told, FeatureState::Dead, true);
    let over = h.is_some() && s.work.len() > p.cfg.max_git_lookups;
    let orphans = sort_orphans(old);
    assert(orphans.len() == orphans.deep_view().len());
    let hidden: usize = count_unprinted(&orphans, &dead);
    let more = note_list(p.cfg, &s.checked, young, noop, bare, over, hidden);
    let mut all_notes = crate::text::copy_list(notes);
    extend(&mut all_notes, &more);
    let w = Walker::new(p.cfg);
    let (first, skipped) = first_candidates(p, &w);
    let cands = grow(p.sides, p.tests, first);
    let links = link(p.sides, &cands);
    let n_knobs: usize = count_knobs(&links);
    let search = Knobs { pass: p, links, docs: public };
    let ghost e = knobs_of(p@, public.deep_view());
    assert(search@ == e);
    let found = search.search();
    add_knob_notes(&mut all_notes, skipped, found.suppressed);
    let (unread, tested) = count_unread(&found.findings);
    assert(found.findings.len() == found.findings.deep_view().len());
    let files = file_list(&found.findings);
    let noop_features = if p.cfg.report_noop_features {
        noop_list(&told)
    } else {
        let none: Vec<Feature> = Vec::new();
        assert(none.deep_view() =~= Seq::<FeatureView>::empty());
        none
    };
    let totals = Totals {
        manifests: p.manifests.len(),
        other_manifests: other,
        deps: s.checked.deps,
        checked_deps: s.checked.checked,
        orphans: n_old,
        misplaced: 0,
        features: told.len(),
        dead_features: n_dead,
        noop_features: noop,
        config_structs: cands.len(),
        knobs: n_knobs,
        unread_knobs: unread,
        test_only_knobs: tested,
        git_lookups_capped: over,
    };
    DeclaredReport {
        totals,
        notes: all_notes,
        orphans,
        misplaced: s.checked.misplaced,
        features: told,
        dead_features: dead,
        noop_features,
        unread_knobs: found.findings,
        files,
    }
}

} // verus!
