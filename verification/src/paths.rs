//! Repository-relative paths, `/` between components, the root written as the empty text.

use vstd::prelude::*;

use crate::discover::{dir, dir_of};
use crate::text::{last_of, pieces, plus, put, same, split, starts, starts_with, Chars};

verus! {

/// `file` under `dir`.
pub open spec fn joined_path(dir: Chars, file: Chars) -> Chars {
    if dir.len() == 0 {
        file
    } else {
        dir + "/"@ + file
    }
}

/// `file` under `dir`.
pub fn join_dir(dir: &str, file: &str) -> (r: String)
    ensures
        r@ == joined_path(dir@, file@),
{
    if dir.is_empty() {
        file.to_owned()
    } else {
        plus(plus(dir.to_owned(), "/"), file)
    }
}

/// The path stands under `dir`, or `dir` is the root.
pub open spec fn beneath(path: Chars, dir: Chars) -> bool {
    dir.len() == 0 || starts(path, dir + "/"@)
}

/// Does the path stand under `dir`?
pub fn is_beneath(path: &str, dir: &str) -> (r: bool)
    ensures
        r == beneath(path@, dir@),
{
    if dir.is_empty() {
        return true;
    }
    let prefix = plus(dir.to_owned(), "/");
    starts_with(path, prefix.as_str())
}

/// A directory is shorter than what stands in it.
pub proof fn dir_is_shorter(path: Chars)
    requires
        path.len() > 0,
    ensures
        dir_of(path).len() < path.len(),
{
    last_of_bounds(path, '/');
}

proof fn last_of_bounds(s: Chars, c: char)
    ensures
        last_of(s, c) matches Some(i) ==> 0 <= i < s.len() && s[i] == c && forall|k: int| i < k < s.len() ==> s[k] != c,
        last_of(s, c) is None ==> forall|k: int| 0 <= k < s.len() ==> s[k] != c,
    decreases s.len(),
{
    if s.len() > 0 && s.last() != c {
        last_of_bounds(s.drop_last(), c);
        assert(forall|k: int| 0 <= k < s.len() - 1 ==> s.drop_last()[k] == s[k]);
    }
}

/// The directories a path stands in, nearest first, the root last.
pub open spec fn above(d: Chars) -> Seq<Chars>
    decreases d.len(),
{
    if d.len() == 0 || dir_of(d).len() >= d.len() {
        seq![d]
    } else {
        seq![d] + above(dir_of(d))
    }
}

/// The directories `d` and above, nearest first, the root last.
pub fn dirs_above(d: &str) -> (out: Vec<String>)
    ensures
        out.deep_view() == above(d@),
{
    let mut out: Vec<String> = Vec::new();
    let mut at: String = d.to_owned();
    assert(out.deep_view() + above(d@) =~= above(d@));
    loop
        invariant
            above(d@) == out.deep_view() + above(at@),
        decreases at@.len(),
    {
        let ghost done = out.deep_view();
        put(&mut out, at.clone());
        if at.as_str().is_empty() {
            assert(done + seq![at@] =~= out.deep_view());
            return out;
        }
        proof {
            dir_is_shorter(at@);
            assert(done + (seq![at@] + above(dir_of(at@))) =~= out.deep_view() + above(dir_of(at@)));
        }
        at = dir(at.as_str());
    }
}

/// What the components of `parts`, from `k` on, leave of a path: empty ones and `.` go, `..` takes
/// the one before it away.
pub open spec fn resolved(parts: Seq<Chars>, k: int, out: Seq<Chars>) -> Seq<Chars>
    decreases parts.len() - k,
{
    if k < 0 || k >= parts.len() {
        out
    } else if parts[k].len() == 0 || parts[k] == "."@ {
        resolved(parts, k + 1, out)
    } else if parts[k] == ".."@ {
        resolved(
            parts,
            k + 1,
            if out.len() == 0 {
                out
            } else {
                out.drop_last()
            },
        )
    } else {
        resolved(parts, k + 1, out.push(parts[k]))
    }
}

/// The components of a path without `.` and `..`.
pub open spec fn normal(p: Chars) -> Chars {
    crate::text::joined(resolved(pieces(p, "/"@), 0, Seq::empty()), "/"@)
}

fn resolve_parts(parts: &Vec<String>, start: Vec<String>) -> (out: Vec<String>)
    ensures
        out.deep_view() == resolved(parts.deep_view(), 0, start.deep_view()),
{
    let ghost view = parts.deep_view();
    let ghost begin = start.deep_view();
    let mut out: Vec<String> = start;
    let mut k: usize = 0;
    while k < parts.len()
        invariant
            k <= parts.len(),
            view == parts.deep_view(),
            resolved(view, 0, begin) == resolved(view, k as int, out.deep_view()),
        decreases parts.len() - k,
    {
        let s = parts[k].as_str();
        assert(view[k as int] == s@);
        if s.is_empty() || same(s, ".") {
        } else if same(s, "..") {
            let ghost was = out.deep_view();
            out.pop();
            proof {
                if was.len() > 0 {
                    assert(out.deep_view() =~= was.drop_last());
                } else {
                    assert(out.deep_view() =~= was);
                }
            }
        } else {
            put(&mut out, s.to_owned());
        }
        k = k + 1;
    }
    out
}

/// `p` without `.` and `..` components.
pub fn norm_path(p: &str) -> (r: String)
    ensures
        r@ == normal(p@),
{
    let none: Vec<String> = Vec::new();
    assert(none.deep_view() =~= Seq::<Chars>::empty());
    crate::text::join(&resolve_parts(&split(p, "/"), none), "/")
}

/// The components of a directory.
pub open spec fn dir_parts(dir: Chars) -> Seq<Chars> {
    if dir.len() == 0 {
        Seq::empty()
    } else {
        pieces(dir, "/"@)
    }
}

/// `rest` as it reads from `dir`.
pub open spec fn read_from(dir: Chars, rest: Chars) -> Chars {
    crate::text::joined(resolved(pieces(rest, "/"@), 0, dir_parts(dir)), "/"@)
}

/// `rest` as it reads from `dir`.
pub fn join_path(dir: &str, rest: &str) -> (r: String)
    ensures
        r@ == read_from(dir@, rest@),
{
    let start = if dir.is_empty() {
        let none: Vec<String> = Vec::new();
        assert(none.deep_view() =~= Seq::<Chars>::empty());
        none
    } else {
        split(dir, "/")
    };
    crate::text::join(&resolve_parts(&split(rest, "/"), start), "/")
}

/// A component that names something: not empty, not `.` and not `..`.
pub open spec fn names_something(part: Chars) -> bool {
    part.len() > 0 && part != "."@ && part != ".."@
}

/// Every component names something.
pub open spec fn clean(parts: Seq<Chars>) -> bool {
    forall|i: int| 0 <= i < parts.len() ==> names_something(#[trigger] parts[i])
}

/// What is left of a path has no `.`, no `..` and no empty component.
pub proof fn resolved_is_clean(parts: Seq<Chars>, k: int, out: Seq<Chars>)
    requires
        0 <= k,
        clean(out),
    ensures
        clean(resolved(parts, k, out)),
    decreases parts.len() - k,
{
    if k < parts.len() {
        if parts[k].len() == 0 || parts[k] == "."@ {
            resolved_is_clean(parts, k + 1, out);
        } else if parts[k] == ".."@ {
            let rest = if out.len() == 0 {
                out
            } else {
                out.drop_last()
            };
            assert(clean(rest));
            resolved_is_clean(parts, k + 1, rest);
        } else {
            assert(clean(out.push(parts[k])));
            resolved_is_clean(parts, k + 1, out.push(parts[k]));
        }
    }
}

} // verus!
