//! Sets of globs, and what they match.

use vstd::prelude::*;

use crate::text::Chars;

verus! {

// ---------- what globset gives ----------

/// `globset::GlobSetBuilder`: globs that are collected for a set.
#[verifier::external_type_specification]
#[verifier::external_body]
pub struct ExGlobSetBuilder(globset::GlobSetBuilder);

/// `globset::GlobSet`: globs that are matched together.
#[verifier::external_type_specification]
#[verifier::external_body]
pub struct ExGlobSet(globset::GlobSet);

/// The globs that were added to a builder.
pub uninterp spec fn builder_globs(b: globset::GlobSetBuilder) -> Seq<Chars>;

/// The globs of a set.
pub uninterp spec fn set_globs(set: globset::GlobSet) -> Seq<Chars>;

/// `globset::Glob::new` accepts the glob.
pub uninterp spec fn glob_ok(glob: Chars) -> bool;

/// `globset::GlobSetBuilder::build` can make one set of the globs.
pub uninterp spec fn globs_fit(globs: Seq<Chars>) -> bool;

/// A glob matches a path.
pub uninterp spec fn glob_hits(glob: Chars, path: Chars) -> bool;

/// `globset::GlobSetBuilder::new`: a builder without globs.
#[verifier::external_body]
fn glob_builder() -> (r: globset::GlobSetBuilder)
    ensures
        builder_globs(r) == Seq::<Chars>::empty(),
{
    globset::GlobSetBuilder::new()
}

/// `globset::Glob::new` and `globset::GlobSetBuilder::add`: whether a glob is accepted is a function
/// of its text, and one that is becomes the last glob of the builder. A backslash escapes the next
/// character where it separates no paths on the target, and nowhere else.
#[verifier::external_body]
fn glob_add(b: &mut globset::GlobSetBuilder, glob: &str) -> (r: bool)
    ensures
        r == glob_ok(glob@),
        builder_globs(*final(b)) == (if r {
            builder_globs(*old(b)).push(glob@)
        } else {
            builder_globs(*old(b))
        }),
{
    match globset::Glob::new(glob) {
        Ok(g) => {
            b.add(g);
            true
        },
        Err(_) => false,
    }
}

/// `globset::GlobSetBuilder::build`: the set of the builder's globs, where one can be made of them.
/// Of no globs at all one can.
#[verifier::external_body]
fn glob_build(b: &globset::GlobSetBuilder) -> (r: Option<globset::GlobSet>)
    ensures
        match r {
            Some(set) => globs_fit(builder_globs(*b)) && set_globs(set) == builder_globs(*b),
            None => !globs_fit(builder_globs(*b)),
        },
        builder_globs(*b).len() == 0 ==> r is Some,
{
    b.build().ok()
}

/// `globset::GlobSet::empty`: a set without globs.
#[verifier::external_body]
fn glob_none() -> (r: globset::GlobSet)
    ensures
        set_globs(r) == Seq::<Chars>::empty(),
{
    globset::GlobSet::empty()
}

/// `globset::GlobSet::is_match`: some glob of the set matches the path. Whether a glob does is a
/// function of the glob and the path.
#[verifier::external_body]
pub(crate) fn glob_match(set: &globset::GlobSet, path: &str) -> (r: bool)
    ensures
        r == (exists|k: int| 0 <= k < set_globs(*set).len() && #[trigger] glob_hits(set_globs(*set)[k], path@)),
{
    set.is_match(path)
}

// ---------- sets from lists ----------

/// Some glob of the list matches the path.
pub open spec fn hit_by(globs: Seq<Chars>, path: Chars) -> bool {
    exists|k: int| 0 <= k < globs.len() && #[trigger] glob_hits(globs[k], path)
}

/// The globs of a list that are accepted.
pub open spec fn accepted(globs: Seq<Chars>) -> Seq<Chars>
    decreases globs.len(),
{
    if globs.len() == 0 {
        Seq::empty()
    } else if glob_ok(globs.last()) {
        accepted(globs.drop_last()).push(globs.last())
    } else {
        accepted(globs.drop_last())
    }
}

/// The globs that a set made from a list has: the accepted ones, and none where they do not fit into
/// one set.
pub open spec fn kept_globs(globs: Seq<Chars>) -> Seq<Chars> {
    if globs_fit(accepted(globs)) {
        accepted(globs)
    } else {
        Seq::empty()
    }
}

/// What a set made from a list answers for a path.
pub open spec fn glob_hit(globs: Seq<Chars>, path: Chars) -> bool {
    hit_by(kept_globs(globs), path)
}

/// The set of the accepted globs of a list, and the empty set where they do not fit into one.
pub(crate) fn glob_set(globs: &Vec<String>) -> (r: globset::GlobSet)
    ensures
        set_globs(r) == kept_globs(globs.deep_view()),
{
    let ghost view = globs.deep_view();
    let mut b = glob_builder();
    let mut k: usize = 0;
    assert(view.take(0) =~= Seq::<Chars>::empty());
    while k < globs.len()
        invariant
            k <= globs.len(),
            view == globs.deep_view(),
            builder_globs(b) == accepted(view.take(k as int)),
        decreases globs.len() - k,
    {
        assert(view.take(k + 1).drop_last() =~= view.take(k as int));
        assert(view.take(k + 1).last() == globs@[k as int]@);
        glob_add(&mut b, globs[k].as_str());
        k = k + 1;
    }
    assert(view.take(view.len() as int) =~= view);
    match glob_build(&b) {
        Some(set) => set,
        None => glob_none(),
    }
}

/// Does a set made from the list match the path?
pub fn any_hit(globs: &Vec<String>, path: &str) -> (r: bool)
    ensures
        r == glob_hit(globs.deep_view(), path@),
        globs_fit(accepted(globs.deep_view())) ==> (r <==> exists|k: int|
            0 <= k < globs.deep_view().len() && glob_ok(globs.deep_view()[k]) && #[trigger] glob_hits(
                globs.deep_view()[k],
                path@,
            )),
{
    proof {
        a_set_matches_where_a_glob_does(globs.deep_view(), path@);
    }
    glob_match(&glob_set(globs), path)
}

proof fn accepted_are_listed(globs: Seq<Chars>)
    ensures
        forall|g: Chars| #[trigger] accepted(globs).contains(g) <==> globs.contains(g) && glob_ok(g),
    decreases globs.len(),
{
    let out = accepted(globs);
    if globs.len() > 0 {
        let rest = globs.drop_last();
        let g = globs.last();
        let before = accepted(rest);
        accepted_are_listed(rest);
        assert(globs =~= rest.push(g));
        assert forall|x: Chars| #[trigger] out.contains(x) <==> globs.contains(x) && glob_ok(x) by {
            assert(before.contains(x) <==> rest.contains(x) && glob_ok(x));
            if before.contains(x) {
                let k = choose|k: int| 0 <= k < before.len() && before[k] == x;
                assert(out[k] == x);
            }
            if rest.contains(x) {
                let k = choose|k: int| 0 <= k < rest.len() && rest[k] == x;
                assert(globs[k] == x);
            }
            if out.contains(x) && !before.contains(x) {
                let k = choose|k: int| 0 <= k < out.len() && out[k] == x;
                assert(k == before.len());
                assert(globs[globs.len() - 1] == x);
            }
            if globs.contains(x) && glob_ok(x) && !rest.contains(x) {
                let k = choose|k: int| 0 <= k < globs.len() && globs[k] == x;
                assert(k == rest.len()) by {
                    if k < rest.len() {
                        assert(rest[k] == x);
                    }
                }
                assert(out[before.len() as int] == x);
            }
        }
    }
}

/// A set made from a list matches a path exactly where some accepted glob of the list does, if those
/// fit into one set; and nothing at all if they do not.
pub proof fn a_set_matches_where_a_glob_does(globs: Seq<Chars>, path: Chars)
    ensures
        globs_fit(accepted(globs)) ==> (glob_hit(globs, path) <==> exists|k: int|
            0 <= k < globs.len() && glob_ok(globs[k]) && #[trigger] glob_hits(globs[k], path)),
        !globs_fit(accepted(globs)) ==> !glob_hit(globs, path),
{
    let out = accepted(globs);
    accepted_are_listed(globs);
    if hit_by(out, path) {
        let k = choose|k: int| 0 <= k < out.len() && #[trigger] glob_hits(out[k], path);
        assert(out.contains(out[k]));
        let j = choose|j: int| 0 <= j < globs.len() && globs[j] == out[k];
        assert(glob_ok(globs[j]) && glob_hits(globs[j], path));
    }
    if exists|k: int| 0 <= k < globs.len() && glob_ok(globs[k]) && #[trigger] glob_hits(globs[k], path) {
        let k = choose|k: int| 0 <= k < globs.len() && glob_ok(globs[k]) && #[trigger] glob_hits(globs[k], path);
        assert(globs.contains(globs[k]));
        assert(out.contains(globs[k]));
        let j = choose|j: int| 0 <= j < out.len() && out[j] == globs[k];
        assert(glob_hits(out[j], path));
    }
}

} // verus!
