//! Words of the report, and where docs use them.

use vstd::prelude::*;

use crate::order::{dedup_texts, deduped, sort_texts, sorted_texts};
use crate::paths::{join_dir, joined_path};
use crate::text::{
    ascii_alnum, chars, copy_list, decimal, digits, find, find_from, is_ascii_alnum, join, joined, lines, lines_of, list_has,
    plus, put, rsplit_once, same, split, split_once, starts_with, strip_end, strip_prefix, strip_start, stripped_end,
    stripped_start, trim, trim_trailing, trimmed, without_prefix, without_trailing, around_first, around_last, pieces, starts,
    Chars,
};

verus! {

/// `1 knob`, `2 knobs`.
pub open spec fn plural_of(n: nat, one: Chars, many: Chars) -> Chars {
    digits(n) + " "@ + (if n == 1 {
        one
    } else {
        many
    })
}

/// `1 knob`, `2 knobs`.
pub fn plural(n: usize, one: &str, many: &str) -> (o: String)
    ensures
        o@ == plural_of(n as nat, one@, many@),
{
    let head = plus(decimal(n), " ");
    plus(
        head,
        if n == 1 {
            one
        } else {
            many
        },
    )
}

/// `a, b or c`.
pub open spec fn either(parts: Seq<Chars>) -> Chars {
    if parts.len() == 0 {
        Seq::empty()
    } else if parts.len() == 1 {
        parts[0]
    } else {
        joined(parts.drop_last(), ", "@) + " or "@ + parts.last()
    }
}

/// `a, b or c`.
pub fn join_or(items: &Vec<String>) -> (o: String)
    ensures
        o@ == either(items.deep_view()),
{
    let ghost view = items.deep_view();
    let n: usize = items.len();
    assert(view.len() == n);
    if n == 0 {
        return String::new();
    }
    assert(view[n - 1] == items@[n - 1]@);
    if n == 1 {
        return items[0].as_str().to_owned();
    }
    let mut front = copy_list(items);
    assert(front.deep_view().len() == n);
    front.pop();
    assert(front.deep_view() =~= view.drop_last());
    plus(plus(join(&front, ", "), " or "), items[n - 1].as_str())
}

/// A character of a word: `-` and `_` are word characters.
pub open spec fn word_char(c: char) -> bool {
    ascii_alnum(c) || c == '_' || c == '-'
}

fn is_word_char(c: char) -> (r: bool)
    ensures
        r == word_char(c),
{
    is_ascii_alnum(c) || c == '_' || c == '-'
}

/// No word character stands right before `at` or at `end`.
pub open spec fn bounded(s: Chars, at: int, end: int) -> bool {
    (at == 0 || !word_char(s[at - 1])) && (end >= s.len() || !word_char(s[end]))
}

/// The first place at or after `from` where `name` is a whole word, of those that do not overlap.
pub open spec fn word_from(s: Chars, name: Chars, from: int) -> Option<int>
    decreases s.len() - from,
{
    match find_from(s, name, from) {
        None => None,
        Some(at) => {
            let end = at + name.len();
            if bounded(s, at, end) {
                Some(at)
            } else if from < end <= s.len() {
                word_from(s, name, end)
            } else {
                None
            }
        },
    }
}

/// `name` stands in `s` as a whole word.
pub open spec fn mentions(s: Chars, name: Chars) -> bool {
    word_from(s, name, 0) is Some
}

/// Where `name` stands in `text` as a whole word (`-` and `_` are word characters), in characters.
pub fn word_at(text: &str, name: &str) -> (r: Option<usize>)
    ensures
        crate::text::as_int(r) == word_from(text@, name@, 0),
{
    let s = chars(text);
    let p = chars(name);
    let mut from: usize = 0;
    loop
        invariant
            from <= s.len(),
            s@ == text@,
            p@ == name@,
            word_from(text@, name@, 0) == word_from(text@, name@, from as int),
        decreases s.len() - from,
    {
        match find(&s, &p, from) {
            None => {
                return None;
            },
            Some(at) => {
                let end: usize = at + p.len();
                if (at == 0 || !is_word_char(s[at - 1])) && (end >= s.len() || !is_word_char(s[end])) {
                    return Some(at);
                }
                if end <= from {
                    return None;
                }
                from = end;
            },
        }
    }
}

/// A line names `key` or `ident` as a word.
pub open spec fn names_dep(l: Chars, key: Chars, ident: Chars) -> bool {
    mentions(l, key) || (ident != key && mentions(l, ident))
}

/// The first line, from index `k` on, that names `key` or `ident`.
pub open spec fn mention_line(list: Seq<Chars>, key: Chars, ident: Chars, k: int) -> Option<usize>
    decreases list.len() - k,
{
    if k < 0 || k >= list.len() {
        None
    } else if names_dep(list[k], key, ident) {
        Some((k + 1) as usize)
    } else {
        mention_line(list, key, ident, k + 1)
    }
}

/// The first (file, line), from doc `d` on, that names `key` or `ident` as a word.
pub open spec fn mention_from(docs: Seq<(Chars, Chars)>, key: Chars, ident: Chars, d: int) -> Option<(Chars, usize)>
    decreases docs.len() - d,
{
    if d < 0 || d >= docs.len() {
        None
    } else {
        match mention_line(lines_of(docs[d].1), key, ident, 0) {
            Some(l) => Some((docs[d].0, l)),
            None => mention_from(docs, key, ident, d + 1),
        }
    }
}

fn line_naming(list: &Vec<String>, key: &str, ident: &str) -> (r: Option<usize>)
    ensures
        r == mention_line(list.deep_view(), key@, ident@, 0),
{
    let ghost view = list.deep_view();
    let mut k: usize = 0;
    while k < list.len()
        invariant
            k <= list.len(),
            view == list.deep_view(),
            mention_line(view, key@, ident@, 0) == mention_line(view, key@, ident@, k as int),
        decreases list.len() - k,
    {
        assert(view[k as int] == list@[k as int]@);
        let l = list[k].as_str();
        if word_at(l, key).is_some() || (!same(ident, key) && word_at(l, ident).is_some()) {
            return Some(k + 1);
        }
        k = k + 1;
    }
    None
}

/// First (file, line) among `docs` whose text names `key` or `ident` as a word.
pub fn doc_mention(docs: &Vec<(String, String)>, key: &str, ident: &str) -> (r: Option<(String, usize)>)
    ensures
        r.deep_view() == mention_from(docs.deep_view(), key@, ident@, 0),
{
    let ghost view = docs.deep_view();
    let mut d: usize = 0;
    while d < docs.len()
        invariant
            d <= docs.len(),
            view == docs.deep_view(),
            mention_from(view, key@, ident@, 0) == mention_from(view, key@, ident@, d as int),
        decreases docs.len() - d,
    {
        assert(view[d as int] == docs@[d as int].deep_view());
        let list = lines(docs[d].1.as_str());
        if let Some(l) = line_naming(&list, key, ident) {
            return Some((docs[d].0.clone(), l));
        }
        d = d + 1;
    }
    None
}

// ---------- fences ----------

/// A fenced block as far as it has been read.
pub struct Fence {
    pub open: bool,
    /// The line of the header or the first knob, 0 where none was met.
    pub first: usize,
    pub last: usize,
    pub headed: bool,
}

/// Between the marks of fences, right after one.
pub open spec fn fence_at(open: bool) -> Fence {
    Fence { open, first: 0, last: 0, headed: false }
}

/// A line that opens or closes a fence.
pub open spec fn fence_mark(t: Chars) -> bool {
    starts(t, "```"@) || starts(t, "~~~"@)
}

/// A line that is the header of a section.
pub open spec fn heads(t: Chars, header: Chars) -> bool {
    header.len() > 0 && (t == "["@ + header + "]"@ || t == "[["@ + header + "]]"@)
}

/// A line that sets one of `knobs`.
pub open spec fn sets(t: Chars, knobs: Seq<Chars>) -> bool {
    let key = stripped_end(stripped_start(trimmed(pieces(t, "=:"@)[0]), "\""@), "\""@);
    key.len() > 0 && t.len() > key.len() && knobs.contains(key)
}

/// What a line inside a fence adds.
pub open spec fn fence_step(f: Fence, t: Chars, header: Chars, knobs: Seq<Chars>, at: usize) -> Fence {
    if heads(t, header) {
        Fence { open: f.open, first: at, last: at, headed: true }
    } else if sets(t, knobs) {
        Fence {
            open: f.open,
            first: if f.first == 0 {
                at
            } else {
                f.first
            },
            last: at,
            headed: f.headed,
        }
    } else {
        f
    }
}

/// The first fence, from line index `k` on, that holds the header; and the first that holds a knob
/// without it, where `spare` is what was found so far.
pub open spec fn fence_in(
    list: Seq<Chars>,
    k: int,
    f: Fence,
    spare: Option<(usize, usize)>,
    header: Chars,
    knobs: Seq<Chars>,
) -> (Option<(usize, usize)>, Option<(usize, usize)>)
    decreases list.len() - k,
{
    if k < 0 || k >= list.len() {
        (None, spare)
    } else {
        let t = trimmed(list[k]);
        if fence_mark(t) {
            if f.open && f.first > 0 {
                if f.headed {
                    (Some((f.first, f.last)), spare)
                } else {
                    fence_in(
                        list,
                        k + 1,
                        fence_at(!f.open),
                        if spare is Some {
                            spare
                        } else {
                            Some((f.first, f.last))
                        },
                        header,
                        knobs,
                    )
                }
            } else {
                fence_in(list, k + 1, fence_at(!f.open), spare, header, knobs)
            }
        } else if !f.open {
            fence_in(list, k + 1, f, spare, header, knobs)
        } else {
            fence_in(list, k + 1, fence_step(f, t, header, knobs, (k + 1) as usize), spare, header, knobs)
        }
    }
}

/// Where docs, from `d` on, show the section; else where they show one of its knobs.
pub open spec fn fences_from(
    docs: Seq<(Chars, Chars)>,
    d: int,
    spare: Option<(Chars, usize, usize)>,
    header: Chars,
    knobs: Seq<Chars>,
) -> Option<(Chars, usize, usize)>
    decreases docs.len() - d,
{
    if d < 0 || d >= docs.len() {
        spare
    } else {
        let (hit, own) = fence_in(lines_of(docs[d].1), 0, fence_at(false), None, header, knobs);
        match hit {
            Some((a, b)) => Some((docs[d].0, a, b)),
            None => fences_from(
                docs,
                d + 1,
                if spare is Some {
                    spare
                } else {
                    match own {
                        Some((a, b)) => Some((docs[d].0, a, b)),
                        None => None,
                    }
                },
                header,
                knobs,
            ),
        }
    }
}

/// The text of a section without its brackets.
pub open spec fn bare_section(section: Chars) -> Chars {
    stripped_end(stripped_start(section, "["@), "]"@)
}

/// Where a fenced block of the docs documents a section or its knobs.
pub open spec fn fence_of(docs: Seq<(Chars, Chars)>, section: Chars, knobs: Seq<Chars>) -> Option<(Chars, usize, usize)> {
    fences_from(docs, 0, None, bare_section(section), knobs)
}

fn is_header(t: &str, header: &str) -> (r: bool)
    ensures
        r == heads(t@, header@),
{
    let one = plus(plus("[".to_owned(), header), "]");
    let two = plus(plus("[[".to_owned(), header), "]]");
    !header.is_empty() && (same(t, one.as_str()) || same(t, two.as_str()))
}

proof fn pieces_are_some(s: Chars, seps: Chars, from: int, i: int)
    ensures
        crate::text::pieces_from(s, seps, from, i).len() > 0,
    decreases s.len() - i,
{
    if 0 <= i < s.len() {
        pieces_are_some(s, seps, i + 1, i + 1);
        pieces_are_some(s, seps, from, i + 1);
    }
}

fn sets_knob(t: &str, knobs: &Vec<String>) -> (r: bool)
    ensures
        r == sets(t@, knobs.deep_view()),
{
    let parts = split(t, "=:");
    proof {
        pieces_are_some(t@, "=:"@, 0, 0);
    }
    assert(parts.deep_view()[0] == parts@[0]@);
    let key = strip_end(strip_start(trim(parts[0].as_str()).as_str(), "\"").as_str(), "\"");
    !key.as_str().is_empty() && chars(t).len() > chars(key.as_str()).len() && list_has(knobs, key.as_str())
}

fn doc_lines(list: &Vec<String>, header: &str, knobs: &Vec<String>) -> (r: (Option<(usize, usize)>, Option<(usize, usize)>))
    ensures
        r == fence_in(list.deep_view(), 0, fence_at(false), None, header@, knobs.deep_view()),
{
    let ghost view = list.deep_view();
    let mut f = Fence { open: false, first: 0, last: 0, headed: false };
    let mut spare: Option<(usize, usize)> = None;
    let mut k: usize = 0;
    while k < list.len()
        invariant
            k <= list.len(),
            view == list.deep_view(),
            fence_in(view, 0, fence_at(false), None, header@, knobs.deep_view()) == fence_in(
                view,
                k as int,
                f,
                spare,
                header@,
                knobs.deep_view(),
            ),
        decreases list.len() - k,
    {
        assert(view[k as int] == list@[k as int]@);
        let t = trim(list[k].as_str());
        if starts_with(t.as_str(), "```") || starts_with(t.as_str(), "~~~") {
            if f.open && f.first > 0 {
                if f.headed {
                    return (Some((f.first, f.last)), spare);
                }
                if spare.is_none() {
                    spare = Some((f.first, f.last));
                }
            }
            f = Fence { open: !f.open, first: 0, last: 0, headed: false };
        } else if f.open {
            if is_header(t.as_str(), header) {
                f = Fence { open: f.open, first: k + 1, last: k + 1, headed: true };
            } else if sets_knob(t.as_str(), knobs) {
                f = Fence {
                    open: f.open,
                    first: if f.first == 0 {
                        k + 1
                    } else {
                        f.first
                    },
                    last: k + 1,
                    headed: f.headed,
                };
            }
        }
        k = k + 1;
    }
    (None, spare)
}

/// Fenced code blocks of a doc naming `[section]` or one of `knobs` as a key: the file and the line
/// range from the header (or first knob) to the last knob line in that fence.
pub fn doc_fence(docs: &Vec<(String, String)>, section: &str, knobs: &Vec<String>) -> (r: Option<(String, usize, usize)>)
    ensures
        r.deep_view() == fence_of(docs.deep_view(), section@, knobs.deep_view()),
{
    let ghost view = docs.deep_view();
    let header = strip_end(strip_start(section, "[").as_str(), "]");
    let mut spare: Option<(String, usize, usize)> = None;
    let mut d: usize = 0;
    while d < docs.len()
        invariant
            d <= docs.len(),
            view == docs.deep_view(),
            header@ == bare_section(section@),
            fence_of(view, section@, knobs.deep_view()) == fences_from(
                view,
                d as int,
                spare.deep_view(),
                header@,
                knobs.deep_view(),
            ),
        decreases docs.len() - d,
    {
        assert(view[d as int] == docs@[d as int].deep_view());
        let list = lines(docs[d].1.as_str());
        let (hit, own) = doc_lines(&list, header.as_str(), knobs);
        if let Some((a, b)) = hit {
            return Some((docs[d].0.clone(), a, b));
        }
        if spare.is_none() {
            if let Some((a, b)) = own {
                spare = Some((docs[d].0.clone(), a, b));
            }
        }
        d = d + 1;
    }
    spare
}

// ---------- paths ----------

/// A path below the directory of a manifest.
pub open spec fn below_dir(dir: Chars, p: Chars) -> Chars {
    if dir.len() == 0 {
        p
    } else {
        match without_prefix(p, dir) {
            Some(r) => stripped_start(r, "/"@),
            None => p,
        }
    }
}

/// The first component of a path, with a `/` where it is a directory.
pub open spec fn top_part(rel: Chars) -> Chars {
    match around_first(rel, '/') {
        Some((d, _)) => d + "/"@,
        None => rel,
    }
}

/// The first components of the files under the manifest directory, root-level files by name.
pub open spec fn top_parts(dir: Chars, paths: Seq<Chars>) -> Seq<Chars> {
    Seq::new(paths.len(), |k: int| top_part(below_dir(dir, paths[k])))
}

/// `src/`, `tests/`: the distinct first components of the in-scope files under the manifest
/// directory, in order.
pub open spec fn dirs_of(dir: Chars, paths: Seq<Chars>) -> Seq<Chars> {
    deduped(sorted_texts(top_parts(dir, paths)))
}

/// `src/`, `tests/`: the distinct first components of the in-scope files under the manifest
/// directory (root-level files by name).
pub fn scope_dirs(manifest_dir: &str, paths: &Vec<String>) -> (out: Vec<String>)
    ensures
        out.deep_view() == dirs_of(manifest_dir@, paths.deep_view()),
{
    let ghost view = paths.deep_view();
    let mut list: Vec<String> = Vec::new();
    let mut k: usize = 0;
    while k < paths.len()
        invariant
            k <= paths.len(),
            view == paths.deep_view(),
            list.len() == k,
            forall|j: int| 0 <= j < k ==> (#[trigger] list@[j])@ == top_part(below_dir(manifest_dir@, view[j])),
        decreases paths.len() - k,
    {
        assert(view[k as int] == paths@[k as int]@);
        let p = paths[k].as_str();
        let rel = if manifest_dir.is_empty() {
            p.to_owned()
        } else {
            match strip_prefix(p, manifest_dir) {
                Some(r) => strip_start(r.as_str(), "/"),
                None => p.to_owned(),
            }
        };
        assert(rel@ == below_dir(manifest_dir@, view[k as int]));
        let top = match split_once(rel.as_str(), '/') {
            Some((d, _)) => plus(d, "/"),
            None => rel,
        };
        list.push(top);
        k = k + 1;
    }
    assert(list.deep_view() =~= top_parts(manifest_dir@, view));
    dedup_texts(&sort_texts(&list))
}

/// The files `mod name;` in `decl` may name, in the order they are tried.
pub open spec fn mod_files(decl: Chars, name: Chars) -> Seq<Chars> {
    let (dir, file) = match around_last(decl, '/') {
        Some((d, f)) => (d, f),
        None => (Seq::empty(), decl),
    };
    let stem = without_trailing(file, ".rs"@);
    let own = seq![joined_path(dir, name + ".rs"@), joined_path(dir, name + "/mod.rs"@)];
    if stem == "mod"@ || stem == "lib"@ || stem == "main"@ {
        own
    } else {
        own.push(joined_path(dir, stem + "/"@ + name + ".rs"@)).push(joined_path(dir, stem + "/"@ + name + "/mod.rs"@))
    }
}

/// The first of `list`, from `k` on, that is a known path.
pub open spec fn first_known(list: Seq<Chars>, paths: Seq<Chars>, k: int) -> Option<Chars>
    decreases list.len() - k,
{
    if k < 0 || k >= list.len() {
        None
    } else if paths.contains(list[k]) {
        Some(list[k])
    } else {
        first_known(list, paths, k + 1)
    }
}

/// Resolve `#[cfg(test)] mod x;` of `decl` to the file it names, among `paths`.
pub fn resolve_mod(decl: &str, name: &str, paths: &Vec<String>) -> (r: Option<String>)
    ensures
        r.deep_view() == first_known(mod_files(decl@, name@), paths.deep_view(), 0),
{
    let (dir, file) = match rsplit_once(decl, '/') {
        Some((d, f)) => (d, f),
        None => {
            let none = String::new();
            assert(none@ =~= Seq::<char>::empty());
            (none, decl.to_owned())
        },
    };
    let stem = trim_trailing(file.as_str(), ".rs");
    let mut list: Vec<String> = Vec::new();
    put(&mut list, join_dir(dir.as_str(), plus(name.to_owned(), ".rs").as_str()));
    put(&mut list, join_dir(dir.as_str(), plus(name.to_owned(), "/mod.rs").as_str()));
    assert(list.deep_view() =~= seq![joined_path(dir@, name@ + ".rs"@), joined_path(dir@, name@ + "/mod.rs"@)]);
    if !(same(stem.as_str(), "mod") || same(stem.as_str(), "lib") || same(stem.as_str(), "main")) {
        put(&mut list, join_dir(dir.as_str(), plus(plus(plus(stem.clone(), "/"), name), ".rs").as_str()));
        put(&mut list, join_dir(dir.as_str(), plus(plus(plus(stem.clone(), "/"), name), "/mod.rs").as_str()));
    }
    let ghost view = list.deep_view();
    assert(view == mod_files(decl@, name@));
    let mut k: usize = 0;
    while k < list.len()
        invariant
            k <= list.len(),
            view == list.deep_view(),
            view == mod_files(decl@, name@),
            first_known(view, paths.deep_view(), 0) == first_known(view, paths.deep_view(), k as int),
        decreases list.len() - k,
    {
        assert(view[k as int] == list@[k as int]@);
        if list_has(paths, list[k].as_str()) {
            return Some(list[k].clone());
        }
        k = k + 1;
    }
    None
}

} // verus!
