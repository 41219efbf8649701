//! Which orphans and dead features are printed once history has answered.

use vstd::prelude::*;

use crate::declared::features::{FeatureState, FeatureView};
use crate::declared::history::{answer_from, days_between, HistoryView};
use crate::declared::orphans::OrphanView;
use crate::declared::report::{feature_told, old_orphans, orphan_at, printed_dead, SurveyView};

verus! {

/// Answer `k` is the first that speaks of orphan or feature `i`.
pub open spec fn answered(s: SurveyView, h: HistoryView, feature: bool, i: int, k: int) -> bool {
    &&& 0 <= k < s.work.len()
    &&& k < s.pass.cfg.max_git_lookups
    &&& k < h.answers.len()
    &&& s.work[k].feature == feature
    &&& s.work[k].index == i
    &&& forall|j: int| 0 <= j < k ==> !(#[trigger] s.work[j].feature == feature && s.work[j].index == i)
}

/// No answer says that fewer commits than `min_age_commits` came after orphan or feature `i`.
pub open spec fn old_enough(s: SurveyView, h: Option<HistoryView>, feature: bool, i: int) -> bool {
    match h {
        Some(x) => forall|k: int| #[trigger]
            answered(s, x, feature, i, k) ==> !(x.answers[k].since is Some && x.answers[k].since->0
                < s.pass.cfg.min_age_commits),
        None => true,
    }
}

proof fn first_answer(s: SurveyView, h: HistoryView, feature: bool, i: int, from: int)
    requires
        0 <= from,
        0 <= i <= usize::MAX,
        forall|j: int| 0 <= j < from ==> !(#[trigger] s.work[j].feature == feature && s.work[j].index == i),
    ensures
        ({
            let found = answer_from(s.work, h, s.pass.cfg.max_git_lookups, feature, i as usize, from);
            &&& found is Some ==> exists|k: int| from <= k && #[trigger] answered(s, h, feature, i, k) && found->0 == h.answers[k]
            &&& forall|k: int| from <= k && #[trigger] answered(s, h, feature, i, k) ==> found == Some(h.answers[k])
        }),
    decreases s.work.len() - from,
{
    if from < s.work.len() && from < s.pass.cfg.max_git_lookups && from < h.answers.len() {
        if s.work[from].feature == feature && s.work[from].index == i {
            assert(answered(s, h, feature, i, from));
            assert forall|k: int| from <= k && #[trigger] answered(s, h, feature, i, k) implies k == from by {
                if k > from {
                    assert(s.work[from].feature == feature);
                }
            }
        } else {
            first_answer(s, h, feature, i, from + 1);
            assert(!answered(s, h, feature, i, from));
        }
    }
}

/// Orphan `i` as it is printed: what it is, and how many commits history counts after it.
pub open spec fn is_told(s: SurveyView, h: Option<HistoryView>, i: int, o: OrphanView) -> bool {
    let was = s.checked.orphans[i];
    &&& 0 <= i < s.checked.orphans.len()
    &&& o.manifest == was.manifest
    &&& o.name == was.name
    &&& o.line == was.line
    &&& o.section == was.section
    &&& forall|x: HistoryView, k: int|
        h == Some(x) && #[trigger] answered(s, x, false, i, k) ==> o.commits_since == x.answers[k].since && o.ever_imported
            == x.answers[k].ever
}

proof fn orphan_is_told(s: SurveyView, h: Option<HistoryView>, i: int)
    requires
        0 <= i < s.checked.orphans.len() <= usize::MAX,
    ensures
        is_told(s, h, i, orphan_at(s, h, i)),
{
    if let Some(x) = h {
        first_answer(s, x, false, i, 0);
    }
}

proof fn told_by_age(s: SurveyView, h: Option<HistoryView>, n: int, i: int)
    requires
        0 <= i < n <= s.checked.orphans.len() <= usize::MAX,
        old_enough(s, h, false, i),
    ensures
        old_orphans(s, h, n).contains(orphan_at(s, h, i)),
    decreases n,
{
    let all = old_orphans(s, h, n);
    let rest = old_orphans(s, h, n - 1);
    if i == n - 1 {
        if let Some(x) = h {
            first_answer(s, x, false, i, 0);
        }
        assert(all == rest.push(orphan_at(s, h, i)));
        assert(all[rest.len() as int] == orphan_at(s, h, i));
    } else {
        told_by_age(s, h, n - 1, i);
        let p = choose|p: int| 0 <= p < rest.len() && rest[p] == orphan_at(s, h, i);
        assert(all[p] == rest[p]);
    }
}

/// An orphan that history does not call young is printed, with what history says of it.
pub proof fn an_old_orphan_is_printed(s: SurveyView, h: Option<HistoryView>, i: int)
    requires
        0 <= i < s.checked.orphans.len() <= usize::MAX,
        old_enough(s, h, false, i),
    ensures
        exists|p: int|
            0 <= p < old_orphans(s, h, s.checked.orphans.len() as int).len() && is_told(
                s,
                h,
                i,
                #[trigger] old_orphans(s, h, s.checked.orphans.len() as int)[p],
            ),
{
    let all = old_orphans(s, h, s.checked.orphans.len() as int);
    told_by_age(s, h, s.checked.orphans.len() as int, i);
    orphan_is_told(s, h, i);
    let p = choose|p: int| 0 <= p < all.len() && all[p] == orphan_at(s, h, i);
    assert(is_told(s, h, i, all[p]));
}

/// Every orphan that is printed is one that was found and that history does not call young.
pub proof fn no_young_orphan_is_printed(s: SurveyView, h: Option<HistoryView>, n: int, p: int)
    requires
        0 <= n <= s.checked.orphans.len() <= usize::MAX,
        0 <= p < old_orphans(s, h, n).len(),
    ensures
        exists|i: int| 0 <= i < n && old_enough(s, h, false, i) && #[trigger] is_told(s, h, i, old_orphans(s, h, n)[p]),
    decreases n,
{
    if n > 0 {
        let rest = old_orphans(s, h, n - 1);
        if p < rest.len() {
            assert(old_orphans(s, h, n)[p] == rest[p]);
            no_young_orphan_is_printed(s, h, n - 1, p);
        } else {
            orphan_is_told(s, h, n - 1);
            if let Some(x) = h {
                first_answer(s, x, false, n - 1, 0);
            }
            assert(is_told(s, h, n - 1, old_orphans(s, h, n)[p]));
        }
    }
}

/// Feature `i` is dead, gates code or is wanted all the same, and is not young.
pub open spec fn is_shown(s: SurveyView, h: Option<HistoryView>, i: int) -> bool {
    &&& s.features[i].state == FeatureState::Dead
    &&& s.features[i].gates.len() > 0 || s.pass.cfg.report_bare_dead_features
    &&& old_enough(s, h, true, i)
}

/// `f` is feature `i`.
pub open spec fn is_feature(s: SurveyView, i: int, f: FeatureView) -> bool {
    let was = s.features[i];
    f.manifest == was.manifest && f.name == was.name && f.line == was.line && f.state == was.state && f.gates == was.gates
}

/// A dead feature that gates code is printed unless history calls it young; one that gates none
/// is where the configuration asks for it.
pub proof fn a_dead_feature_is_printed(s: SurveyView, h: Option<HistoryView>, n: int, i: int)
    requires
        0 <= i < n <= s.features.len() <= usize::MAX,
        is_shown(s, h, i),
    ensures
        exists|p: int| 0 <= p < printed_dead(s, h, n).len() && is_feature(s, i, #[trigger] printed_dead(s, h, n)[p]),
    decreases n,
{
    let all = printed_dead(s, h, n);
    let rest = printed_dead(s, h, n - 1);
    if i == n - 1 {
        if let Some(x) = h {
            first_answer(s, x, true, i, 0);
        }
        assert(all == rest.push(feature_told(s, h, i)));
        assert(is_feature(s, i, all[rest.len() as int]));
    } else {
        a_dead_feature_is_printed(s, h, n - 1, i);
        let p = choose|p: int| 0 <= p < rest.len() && is_feature(s, i, #[trigger] rest[p]);
        assert(all[p] == rest[p]);
    }
}

/// Nothing but such a feature is printed.
pub proof fn every_printed_feature_is_dead(s: SurveyView, h: Option<HistoryView>, n: int, p: int)
    requires
        0 <= n <= s.features.len() <= usize::MAX,
        0 <= p < printed_dead(s, h, n).len(),
    ensures
        exists|i: int| 0 <= i < n && is_shown(s, h, i) && #[trigger] is_feature(s, i, printed_dead(s, h, n)[p]),
    decreases n,
{
    if n > 0 {
        let rest = printed_dead(s, h, n - 1);
        if p < rest.len() {
            assert(printed_dead(s, h, n)[p] == rest[p]);
            every_printed_feature_is_dead(s, h, n - 1, p);
        } else {
            if let Some(x) = h {
                first_answer(s, x, true, n - 1, 0);
            }
            assert(is_feature(s, n - 1, printed_dead(s, h, n)[p]));
            assert(is_shown(s, h, n - 1));
        }
    }
}

/// Days are whole days, half a day counting as one; time that runs backwards counts none.
pub proof fn days_are_rounded(from: i64, to: i64)
    ensures
        to <= from ==> days_between(from, to) == 0,
        to > from ==> -43200 < 86400 * days_between(from, to) - (to - from) <= 43200,
{
}

} // verus!
