//! `tsconfig.json` and `jsconfig.json` path mapping for bare specifiers.
//!
//! A repo that writes `import x from 'sentry/utils'` has told the compiler where `sentry/*` lives in
//! `compilerOptions.paths`; without reading it the whole graph is missing. The nearest config above
//! the importing file applies, `extends` chains are followed for local files, and comments and
//! trailing commas are tolerated because the compiler tolerates them.

use vstd::prelude::*;

use crate::discover::{dir, dir_of};
use crate::docs::{doc_of, json_parsed, read_json, root_of, string_at, strings_in, under};
use crate::order::{ordered, stable_order, Key, KeyView};
use crate::paths::{join_path, read_from};
use crate::text::{
    around_first, byte_len, capped_size, chars, copy_list, ends, ends_with, plus, put, same, split_once, starts,
    starts_with, strip_prefix, strip_suffix, without_prefix, without_suffix, Chars,
};
use crate::tree::{ints, is_kind, Nodes, SyntaxTree};

verus! {

// ---------- tolerant JSON ----------

/// White space to ASCII.
pub open spec fn ascii_white(c: char) -> bool {
    c == ' ' || c == '\t' || c == '\n' || c == '\x0c' || c == '\r'
}

/// One past a string read up to `k`.
pub open spec fn string_end(s: Chars, k: int) -> int
    decreases s.len() + 1 - k,
{
    if k < 0 || k >= s.len() {
        s.len() as int
    } else if s[k] == '"' {
        k + 1
    } else if s[k] == '\\' {
        string_end(s, k + 2)
    } else {
        string_end(s, k + 1)
    }
}

/// The next line feed from `k` on.
pub open spec fn line_end(s: Chars, k: int) -> int
    decreases s.len() - k,
{
    if k < 0 || k >= s.len() || s[k] == '\n' {
        k
    } else {
        line_end(s, k + 1)
    }
}

/// One past the block comment read up to `k`.
pub open spec fn comment_end(s: Chars, k: int) -> int
    decreases s.len() - k,
{
    if k < 0 || k + 1 >= s.len() {
        s.len() as int
    } else if s[k] == '*' && s[k + 1] == '/' {
        k + 2
    } else {
        comment_end(s, k + 1)
    }
}

/// The next character from `k` on that is not white.
pub open spec fn past_white(s: Chars, k: int) -> int
    decreases s.len() - k,
{
    if k < 0 || k >= s.len() || !ascii_white(s[k]) {
        k
    } else {
        past_white(s, k + 1)
    }
}

/// A comma that directly precedes a closing bracket.
pub open spec fn trailing(s: Chars, i: int) -> bool {
    let j = past_white(s, i + 1);
    j < s.len() && (s[j] == '}' || s[j] == ']')
}

proof fn ends_are_later(s: Chars, k: int)
    requires
        0 <= k <= s.len(),
    ensures
        k <= line_end(s, k) <= s.len(),
        k <= past_white(s, k) <= s.len(),
    decreases s.len() - k,
{
    if k < s.len() {
        ends_are_later(s, k + 1);
    }
}

proof fn string_end_is_later(s: Chars, k: int)
    requires
        0 <= k,
    ensures
        string_end(s, k) <= s.len(),
        k < s.len() ==> k < string_end(s, k),
        k >= s.len() ==> string_end(s, k) == s.len(),
    decreases s.len() + 1 - k,
{
    if k < s.len() && s[k] != '"' {
        string_end_is_later(
            s,
            if s[k] == '\\' {
                k + 2
            } else {
                k + 1
            },
        );
    }
}

proof fn comment_end_is_later(s: Chars, k: int)
    requires
        0 <= k,
    ensures
        comment_end(s, k) <= s.len(),
        k <= s.len() ==> k <= comment_end(s, k),
    decreases s.len() - k,
{
    if k + 1 < s.len() && !(s[k] == '*' && s[k + 1] == '/') {
        comment_end_is_later(s, k + 1);
    }
}

/// The character at `i`, where there is one.
pub open spec fn char_is(s: Chars, i: int, c: char) -> bool {
    0 <= i < s.len() && s[i] == c
}

/// The text from `i` on without comments outside strings and trailing commas.
pub open spec fn plain_from(s: Chars, i: int) -> Chars
    decreases s.len() - i,
{
    if i < 0 || i >= s.len() {
        Seq::empty()
    } else if s[i] == '"' {
        let j = string_end(s, i + 1);
        s.subrange(i, j) + (if i < j <= s.len() {
            plain_from(s, j)
        } else {
            Seq::empty()
        })
    } else if s[i] == '/' && char_is(s, i + 1, '/') {
        let j = line_end(s, i);
        if i < j <= s.len() {
            plain_from(s, j)
        } else {
            Seq::empty()
        }
    } else if s[i] == '/' && char_is(s, i + 1, '*') {
        let j = comment_end(s, i + 2);
        if i < j <= s.len() {
            plain_from(s, j)
        } else {
            Seq::empty()
        }
    } else if s[i] == ',' && trailing(s, i) {
        plain_from(s, i + 1)
    } else {
        seq![s[i]] + plain_from(s, i + 1)
    }
}

fn copy_range(out: &mut Vec<char>, a: &Vec<char>, from: usize, to: usize)
    requires
        from <= to <= a.len(),
    ensures
        final(out)@ == old(out)@ + a@.subrange(from as int, to as int),
{
    let ghost start = out@;
    let mut k: usize = from;
    assert(start + a@.subrange(from as int, from as int) =~= start);
    while k < to
        invariant
            from <= k <= to <= a.len(),
            out@ == start + a@.subrange(from as int, k as int),
        decreases to - k,
    {
        out.push(a[k]);
        assert(out@ =~= start + a@.subrange(from as int, k + 1));
        k = k + 1;
    }
}

/// Drop `//` and `/* */` comments outside strings and commas that directly precede a closing
/// bracket, which is all the compiler's tolerant parser adds to JSON.
pub fn strip_jsonc(s: &str) -> (r: String)
    ensures
        r@ == plain_from(s@, 0),
{
    let a = chars(s);
    let n: usize = a.len();
    let mut out: Vec<char> = Vec::new();
    let mut i: usize = 0;
    assert(out@ + plain_from(a@, 0) =~= plain_from(a@, 0));
    while i < n
        invariant
            i <= n == a.len(),
            a@ == s@,
            plain_from(s@, 0) == out@ + plain_from(a@, i as int),
        decreases n - i,
    {
        let c: char = a[i];
        let ghost was = out@;
        let ghost from = i as int;
        if c == '"' {
            let mut j: usize = i + 1;
            proof {
                string_end_is_later(a@, i + 1);
            }
            while j < n && a[j] != '"'
                invariant
                    i < j <= n == a.len(),
                    string_end(a@, i + 1) == string_end(a@, j as int),
                decreases n - j,
            {
                let step: usize = if a[j] == '\\' {
                    2
                } else {
                    1
                };
                proof {
                    string_end_is_later(a@, j + step);
                    string_end_is_later(a@, n as int);
                }
                j = if n - j < step {
                    n
                } else {
                    j + step
                };
            }
            let end: usize = if j < n {
                j + 1
            } else {
                n
            };
            proof {
                string_end_is_later(a@, j as int);
            }
            assert(end == string_end(a@, i + 1));
            copy_range(&mut out, &a, i, end);
            let ghost rest = plain_from(a@, end as int);
            assert(was + (a@.subrange(from, end as int) + rest) =~= out@ + rest);
            i = end;
        } else if c == '/' && i + 1 < n && a[i + 1] == '/' {
            proof {
                ends_are_later(a@, i as int);
                ends_are_later(a@, i + 1);
            }
            let mut j: usize = i;
            while j < n && a[j] != '\n'
                invariant
                    i <= j <= n == a.len(),
                    line_end(a@, i as int) == line_end(a@, j as int),
                decreases n - j,
            {
                j = j + 1;
            }
            i = j;
        } else if c == '/' && i + 1 < n && a[i + 1] == '*' {
            proof {
                comment_end_is_later(a@, i + 2);
            }
            let mut j: usize = i + 2;
            while j < n && n - j >= 2 && !(a[j] == '*' && a[j + 1] == '/')
                invariant
                    i + 2 <= j,
                    j <= n == a.len(),
                    comment_end(a@, i + 2) == comment_end(a@, j as int),
                decreases n - j,
            {
                j = j + 1;
            }
            let end: usize = if j < n && n - j >= 2 {
                j + 2
            } else {
                n
            };
            assert(end == comment_end(a@, i + 2));
            i = end;
        } else if c == ',' {
            proof {
                ends_are_later(a@, i + 1);
            }
            let mut j: usize = i + 1;
            while j < n && (a[j] == ' ' || a[j] == '\t' || a[j] == '\n' || a[j] == '\x0c' || a[j] == '\r')
                invariant
                    i < j <= n == a.len(),
                    past_white(a@, i + 1) == past_white(a@, j as int),
                decreases n - j,
            {
                j = j + 1;
            }
            if !(j < n && (a[j] == '}' || a[j] == ']')) {
                out.push(',');
                let ghost rest = plain_from(a@, i + 1);
                assert(was + (seq![c] + rest) =~= out@ + rest);
            }
            i = i + 1;
        } else {
            out.push(c);
            let ghost rest = plain_from(a@, i + 1);
            assert(was + (seq![c] + rest) =~= out@ + rest);
            i = i + 1;
        }
    }
    assert(out@ + Seq::<char>::empty() =~= out@);
    crate::text::string(&out)
}

/// From `i` on there is, outside strings, neither a comment nor a comma that directly precedes a
/// closing bracket.
pub open spec fn strict_from(s: Chars, i: int) -> bool
    decreases s.len() - i,
{
    if i < 0 || i >= s.len() {
        true
    } else if s[i] == '"' {
        let j = string_end(s, i + 1);
        i < j <= s.len() ==> strict_from(s, j)
    } else if s[i] == '/' && (char_is(s, i + 1, '/') || char_is(s, i + 1, '*')) {
        false
    } else if s[i] == ',' && trailing(s, i) {
        false
    } else {
        strict_from(s, i + 1)
    }
}

proof fn strict_is_kept(s: Chars, i: int)
    requires
        0 <= i <= s.len(),
    ensures
        plain_from(s, i).len() <= s.len() - i,
        strict_from(s, i) ==> plain_from(s, i) == s.skip(i),
        !strict_from(s, i) ==> plain_from(s, i).len() < s.len() - i,
    decreases s.len() - i,
{
    if i < s.len() {
        strict_is_kept(s, i + 1);
        if s[i] == '"' {
            let j = string_end(s, i + 1);
            string_end_is_later(s, i + 1);
            strict_is_kept(s, j);
            assert(s.subrange(i, j) + s.skip(j) =~= s.skip(i));
        } else if s[i] == '/' && char_is(s, i + 1, '/') {
            ends_are_later(s, i);
            ends_are_later(s, i + 1);
            strict_is_kept(s, line_end(s, i));
        } else if s[i] == '/' && char_is(s, i + 1, '*') {
            comment_end_is_later(s, i + 2);
            strict_is_kept(s, comment_end(s, i + 2));
        } else {
            assert(seq![s[i]] + s.skip(i + 1) =~= s.skip(i));
        }
    } else {
        assert(s.skip(i) =~= Seq::<char>::empty());
    }
}

/// A text is left as it is exactly where it has, outside strings, no comment and no comma that
/// directly precedes a closing bracket. Strict JSON has neither, so it is kept.
pub proof fn strict_text_is_kept(s: Chars)
    ensures
        plain_from(s, 0) == s <==> strict_from(s, 0),
{
    strict_is_kept(s, 0);
    assert(s.skip(0) =~= s);
}

// ---------- configs ----------

/// One key of `paths`.
pub struct PathPattern {
    /// Text before the `*`; the whole key when there is no `*`.
    pub prefix: String,
    /// Text after the `*`; none means the key is exact.
    pub suffix: Option<String>,
    /// Root-relative targets, still carrying their `*`.
    pub targets: Vec<String>,
}

/// A [`PathPattern`] by its contents.
pub struct PatternView {
    pub prefix: Chars,
    pub suffix: Option<Chars>,
    pub targets: Seq<Chars>,
}

impl DeepView for PathPattern {
    type V = PatternView;

    open spec fn deep_view(&self) -> PatternView {
        PatternView { prefix: self.prefix@, suffix: self.suffix.deep_view(), targets: self.targets.deep_view() }
    }
}

/// What a pattern captures of a specifier.
pub open spec fn capture_of(p: PatternView, spec: Chars) -> Option<Chars> {
    match p.suffix {
        None => if spec == p.prefix {
            Some(Seq::empty())
        } else {
            None
        },
        Some(suffix) => match without_prefix(spec, p.prefix) {
            Some(rest) => without_suffix(rest, suffix),
            None => None,
        },
    }
}

impl PathPattern {
    /// What the pattern captures of a specifier.
    pub fn captured(&self, spec: &str) -> (r: Option<String>)
        ensures
            r.deep_view() == capture_of(self.deep_view(), spec@),
    {
        match &self.suffix {
            None => if same(spec, self.prefix.as_str()) {
                Some(String::new())
            } else {
                None
            },
            Some(suffix) => match strip_prefix(spec, self.prefix.as_str()) {
                Some(rest) => strip_suffix(rest.as_str(), suffix.as_str()),
                None => None,
            },
        }
    }
}

/// What one config file says by itself, and the local files it extends.
pub struct ConfigFile {
    /// Root-relative path of the file.
    pub rel: String,
    /// Root-relative `baseUrl`, when set.
    pub base_url: Option<String>,
    pub paths: Option<Vec<PathPattern>>,
    /// Root-relative paths of what it extends, in order.
    pub parents: Vec<String>,
}

/// A [`ConfigFile`] by its contents.
pub struct ConfigView {
    pub rel: Chars,
    pub base_url: Option<Chars>,
    pub paths: Option<Seq<PatternView>>,
    pub parents: Seq<Chars>,
}

impl DeepView for ConfigFile {
    type V = ConfigView;

    open spec fn deep_view(&self) -> ConfigView {
        ConfigView {
            rel: self.rel@,
            base_url: self.base_url.deep_view(),
            paths: self.paths.deep_view(),
            parents: self.parents.deep_view(),
        }
    }
}

/// The pattern of a key and its targets.
pub open spec fn pattern_of(t: Nodes, i: int, base: Chars) -> PatternView {
    let list = strings_in(t, crate::docs::elements(t, Some(i as usize)));
    let targets = Seq::new(list.len(), |k: int| read_from(base, list[k]));
    match around_first(t[i].field, '*') {
        Some((pre, suf)) => PatternView { prefix: pre, suffix: Some(suf), targets },
        None => PatternView { prefix: t[i].field, suffix: None, targets },
    }
}

/// The patterns of the keys of a table.
pub open spec fn patterns_of(t: Nodes, i: Option<usize>, base: Chars) -> Option<Seq<PatternView>> {
    if is_kind(t, i, "table"@) {
        let kids = t[i->0 as int].children;
        Some(Seq::new(kids.len(), |k: int| pattern_of(t, kids[k] as int, base)))
    } else {
        None
    }
}

/// The texts of `extends`: a string, or an array of them.
pub open spec fn extends_of(t: Nodes, i: Option<usize>) -> Seq<Chars> {
    match string_at(t, i) {
        Some(s) => seq![s],
        None => strings_in(t, crate::docs::elements(t, i)),
    }
}

/// The file an `extends` names, where it is a local one.
pub open spec fn parent_path(dir: Chars, p: Chars) -> Chars {
    let path = read_from(dir, p);
    if ends(path, ".json"@) {
        path
    } else {
        path + ".json"@
    }
}

/// The local files among what is extended; package names are not ours to read.
pub open spec fn local_parents(dir: Chars, list: Seq<Chars>) -> Seq<Chars>
    decreases list.len(),
{
    if list.len() == 0 {
        Seq::empty()
    } else {
        let rest = local_parents(dir, list.drop_last());
        if starts(list.last(), "."@) {
            rest.push(parent_path(dir, list.last()))
        } else {
            rest
        }
    }
}

/// What a document says.
pub open spec fn config_of(rel: Chars, doc: Option<Nodes>) -> ConfigView {
    match doc {
        None => ConfigView { rel, base_url: None, paths: None, parents: Seq::empty() },
        Some(t) => {
            let d = dir_of(rel);
            let opts = under(t, root_of(t), "compilerOptions"@);
            let base_url = match string_at(t, under(t, opts, "baseUrl"@)) {
                Some(b) => Some(read_from(d, b)),
                None => None,
            };
            let base = match base_url {
                Some(b) => b,
                None => d,
            };
            ConfigView {
                rel,
                base_url,
                paths: patterns_of(t, under(t, opts, "paths"@), base),
                parents: local_parents(d, extends_of(t, under(t, root_of(t), "extends"@))),
            }
        },
    }
}

fn read_patterns(t: &SyntaxTree, i: Option<usize>, base: &str) -> (r: Option<Vec<PathPattern>>)
    requires
        t.ok(),
        i matches Some(n) ==> n < t@.len(),
    ensures
        r.deep_view() == patterns_of(t@, i, base@),
{
    let n = match i {
        Some(n) => n,
        None => {
            return None;
        },
    };
    if !t.is(n, "table") {
        return None;
    }
    assert(t@[n as int] == t.nodes@[n as int].deep_view());
    assert(crate::tree::node_ok(t@, n as int));
    let kids = &t.nodes[n].children;
    let mut out: Vec<PathPattern> = Vec::new();
    let mut k: usize = 0;
    while k < kids.len()
        invariant
            k <= kids.len(),
            out.len() == k,
            t.ok(),
            n < t@.len(),
            kids@ == t@[n as int].children,
            crate::tree::node_ok(t@, n as int),
            forall|j: int| 0 <= j < k ==> (#[trigger] out@[j]).deep_view() == pattern_of(t@, kids@[j] as int, base@),
        decreases kids.len() - k,
    {
        assert(n < t@[n as int].children[k as int] < t@.len());
        let c: usize = kids[k];
        assert(t@[c as int] == t.nodes@[c as int].deep_view());
        let list = t.strings(Some(c));
        let ghost view = list.deep_view();
        let mut targets: Vec<String> = Vec::new();
        let mut j: usize = 0;
        while j < list.len()
            invariant
                j <= list.len(),
                targets.len() == j,
                view == list.deep_view(),
                forall|x: int| 0 <= x < j ==> (#[trigger] targets@[x])@ == read_from(base@, view[x]),
            decreases list.len() - j,
        {
            assert(view[j as int] == list@[j as int]@);
            targets.push(join_path(base, list[j].as_str()));
            j = j + 1;
        }
        assert(targets.deep_view() =~= Seq::new(view.len(), |k: int| read_from(base@, view[k])));
        let key = t.nodes[c].field.as_str();
        let p = match split_once(key, '*') {
            Some((pre, suf)) => PathPattern { prefix: pre, suffix: Some(suf), targets },
            None => PathPattern { prefix: key.to_owned(), suffix: None, targets },
        };
        out.push(p);
        k = k + 1;
    }
    assert(out.deep_view() =~= Seq::new(kids@.len(), |k: int| pattern_of(t@, kids@[k] as int, base@)));
    Some(out)
}

fn find_parents(d: &str, list: &Vec<String>) -> (out: Vec<String>)
    ensures
        out.deep_view() == local_parents(d@, list.deep_view()),
{
    let ghost view = list.deep_view();
    let mut out: Vec<String> = Vec::new();
    let mut k: usize = 0;
    assert(view.take(0) =~= Seq::<Chars>::empty());
    assert(out.deep_view() =~= Seq::<Chars>::empty());
    while k < list.len()
        invariant
            k <= list.len(),
            view == list.deep_view(),
            out.deep_view() == local_parents(d@, view.take(k as int)),
        decreases list.len() - k,
    {
        assert(view.take(k + 1).drop_last() =~= view.take(k as int));
        assert(view[k as int] == list@[k as int]@);
        if starts_with(list[k].as_str(), ".") {
            let path = join_path(d, list[k].as_str());
            let path = if ends_with(path.as_str(), ".json") {
                path
            } else {
                plus(path, ".json")
            };
            put(&mut out, path);
        }
        k = k + 1;
    }
    assert(view.take(view.len() as int) =~= view);
    out
}

/// What a document says; nothing where there is none.
pub fn config_in(rel: &str, doc: Option<&SyntaxTree>) -> (r: ConfigFile)
    requires
        doc matches Some(t) ==> t.ok(),
    ensures
        r.deep_view() == config_of(
            rel@,
            match doc {
                Some(t) => Some(t@),
                None => None,
            },
        ),
{
    match doc {
        None => {
            let none: Vec<String> = Vec::new();
            assert(none.deep_view() =~= Seq::<Chars>::empty());
            ConfigFile { rel: rel.to_owned(), base_url: None, paths: None, parents: none }
        },
        Some(t) => {
            let d = dir(rel);
            let opts = t.get(t.root(), "compilerOptions");
            let base_url = match t.string(t.get(opts, "baseUrl")) {
                Some(b) => Some(join_path(d.as_str(), b.as_str())),
                None => None,
            };
            let base = match &base_url {
                Some(b) => b.as_str().to_owned(),
                None => d.as_str().to_owned(),
            };
            let paths = read_patterns(t, t.get(opts, "paths"), base.as_str());
            let ext = t.get(t.root(), "extends");
            let list = match t.string(ext) {
                Some(s) => {
                    let ghost sv = s@;
                    let mut one: Vec<String> = Vec::new();
                    put(&mut one, s);
                    assert(one.deep_view() =~= seq![sv]);
                    one
                },
                None => t.strings(ext),
            };
            let parents = find_parents(d.as_str(), &list);
            ConfigFile { rel: rel.to_owned(), base_url, paths, parents }
        },
    }
}

/// What a config file says is what the document of its text says.
pub open spec fn says_config(rel: Chars, text: Chars, c: ConfigView) -> bool {
    exists|doc: Option<SyntaxTree>| #[trigger] doc_of(json_parsed(plain_from(text, 0)), doc) && c == config_of(
        rel,
        crate::tree::opt_nodes(doc),
    )
}

/// Parse one config file.
pub fn read_config(rel: &str, text: &str) -> (r: ConfigFile)
    ensures
        says_config(rel@, text@, r.deep_view()),
{
    let doc = read_json(strip_jsonc(text).as_str());
    assert(doc_of(json_parsed(plain_from(text@, 0)), doc));
    match &doc {
        Some(t) => config_in(rel, Some(t)),
        None => config_in(rel, None),
    }
}

// ---------- chains ----------

/// The file with a path, from `k` on.
pub open spec fn config_at(files: Seq<ConfigView>, rel: Chars, k: int) -> Option<int>
    decreases files.len() - k,
{
    if k < 0 || k >= files.len() {
        None
    } else if files[k].rel == rel {
        Some(k)
    } else {
        config_at(files, rel, k + 1)
    }
}

/// What a chain of configs amounts to.
pub struct RawView {
    pub base_url: Option<Chars>,
    pub paths: Option<Seq<PatternView>>,
}

/// What is set first stays.
pub open spec fn inherit(own: RawView, parent: RawView) -> RawView {
    RawView {
        base_url: match own.base_url {
            Some(b) => Some(b),
            None => parent.base_url,
        },
        paths: match own.paths {
            Some(p) => Some(p),
            None => parent.paths,
        },
    }
}

/// How deep a chain is followed.
pub const MAX_DEPTH: usize = 8;

/// What a config amounts to with what it extends (local files only, to a depth).
pub open spec fn chain(files: Seq<ConfigView>, rel: Chars, depth: nat) -> RawView
    decreases MAX_DEPTH + 1 - depth, 0nat,
{
    match config_at(files, rel, 0) {
        Some(i) => if depth > MAX_DEPTH {
            RawView { base_url: None, paths: None }
        } else {
            chain_from(
                files,
                files[i].parents,
                files[i].parents.len() as int,
                RawView { base_url: files[i].base_url, paths: files[i].paths },
                depth,
            )
        },
        None => RawView { base_url: None, paths: None },
    }
}

/// A config with what the first `n` of its parents add.
pub open spec fn chain_from(files: Seq<ConfigView>, parents: Seq<Chars>, n: int, own: RawView, depth: nat) -> RawView
    decreases MAX_DEPTH - depth, n,
{
    if n <= 0 {
        own
    } else if depth > MAX_DEPTH {
        own
    } else {
        inherit(
            chain_from(files, parents, n - 1, own, depth),
            if depth < MAX_DEPTH {
                chain(files, parents[n - 1], depth + 1)
            } else {
                RawView { base_url: None, paths: None }
            },
        )
    }
}

/// What a chain of configs amounts to.
pub struct Raw {
    pub base_url: Option<String>,
    pub paths: Option<Vec<PathPattern>>,
}

impl DeepView for Raw {
    type V = RawView;

    open spec fn deep_view(&self) -> RawView {
        RawView { base_url: self.base_url.deep_view(), paths: self.paths.deep_view() }
    }
}

fn copy_patterns(list: &Vec<PathPattern>) -> (out: Vec<PathPattern>)
    ensures
        out.deep_view() == list.deep_view(),
{
    let mut out: Vec<PathPattern> = Vec::new();
    let mut k: usize = 0;
    while k < list.len()
        invariant
            k <= list.len(),
            out.len() == k,
            forall|j: int| 0 <= j < k ==> (#[trigger] out@[j]).deep_view() == list@[j].deep_view(),
        decreases list.len() - k,
    {
        let p = &list[k];
        out.push(
            PathPattern {
                prefix: p.prefix.as_str().to_owned(),
                suffix: match &p.suffix {
                    Some(s) => Some(s.as_str().to_owned()),
                    None => None,
                },
                targets: copy_list(&p.targets),
            },
        );
        k = k + 1;
    }
    assert(out.deep_view() =~= list.deep_view());
    out
}

fn find_config(files: &Vec<ConfigFile>, rel: &str) -> (r: Option<usize>)
    ensures
        crate::text::as_int(r) == config_at(files.deep_view(), rel@, 0),
        r matches Some(i) ==> i < files.len(),
{
    let ghost view = files.deep_view();
    let mut k: usize = 0;
    while k < files.len()
        invariant
            k <= files.len(),
            view == files.deep_view(),
            config_at(view, rel@, 0) == config_at(view, rel@, k as int),
        decreases files.len() - k,
    {
        assert(view[k as int] == files@[k as int].deep_view());
        if same(files[k].rel.as_str(), rel) {
            return Some(k);
        }
        k = k + 1;
    }
    None
}

/// What a config amounts to with what it extends, over the files that were read.
pub fn read(files: &Vec<ConfigFile>, rel: &str, depth: usize) -> (r: Raw)
    ensures
        r.deep_view() == chain(files.deep_view(), rel@, depth as nat),
    decreases MAX_DEPTH + 1 - depth,
{
    let ghost view = files.deep_view();
    let i = match find_config(files, rel) {
        Some(i) => i,
        None => {
            return Raw { base_url: None, paths: None };
        },
    };
    if depth > MAX_DEPTH {
        return Raw { base_url: None, paths: None };
    }
    let f = &files[i];
    assert(view[i as int] == f.deep_view());
    let mut own = Raw {
        base_url: match &f.base_url {
            Some(b) => Some(b.as_str().to_owned()),
            None => None,
        },
        paths: match &f.paths {
            Some(p) => Some(copy_patterns(p)),
            None => None,
        },
    };
    let ghost start = own.deep_view();
    let ghost parents = f.parents.deep_view();
    assert(start == (RawView { base_url: f.deep_view().base_url, paths: f.deep_view().paths }));
    let mut n: usize = 0;
    while n < f.parents.len()
        invariant
            n <= f.parents.len(),
            depth <= MAX_DEPTH,
            view == files.deep_view(),
            parents == f.parents.deep_view(),
            own.deep_view() == chain_from(view, parents, n as int, start, depth as nat),
        decreases f.parents.len() - n,
    {
        assert(parents[n as int] == f.parents@[n as int]@);
        let parent = if depth < MAX_DEPTH {
            read(files, f.parents[n].as_str(), depth + 1)
        } else {
            Raw { base_url: None, paths: None }
        };
        own = Raw {
            base_url: match own.base_url {
                Some(b) => Some(b),
                None => parent.base_url,
            },
            paths: match own.paths {
                Some(p) => Some(p),
                None => parent.paths,
            },
        };
        n = n + 1;
    }
    assert(parents.len() == f.parents.len());
    own
}

/// The files the first `n` files extend that were not read, in order.
pub open spec fn wanted_from(files: Seq<ConfigView>, n: int) -> Seq<Chars>
    decreases n,
{
    if n <= 0 {
        Seq::empty()
    } else {
        wanted_from(files, n - 1) + unread(files, files[n - 1].parents)
    }
}

/// The files of a list that were not read.
pub open spec fn unread(files: Seq<ConfigView>, list: Seq<Chars>) -> Seq<Chars>
    decreases list.len(),
{
    if list.len() == 0 {
        Seq::empty()
    } else {
        let rest = unread(files, list.drop_last());
        if config_at(files, list.last(), 0) is None {
            rest.push(list.last())
        } else {
            rest
        }
    }
}

/// The files that are extended and were not read.
pub fn wanted(files: &Vec<ConfigFile>) -> (out: Vec<String>)
    ensures
        out.deep_view() == wanted_from(files.deep_view(), files.deep_view().len() as int),
{
    let ghost view = files.deep_view();
    assert(view.len() == files.len());
    let mut out: Vec<String> = Vec::new();
    assert(out.deep_view() =~= Seq::<Chars>::empty());
    let mut n: usize = 0;
    while n < files.len()
        invariant
            n <= files.len(),
            view == files.deep_view(),
            out.deep_view() == wanted_from(view, n as int),
        decreases files.len() - n,
    {
        let f = &files[n];
        assert(view[n as int] == f.deep_view());
        let ghost start = out.deep_view();
        let ghost list = f.parents.deep_view();
        let mut k: usize = 0;
        assert(list.take(0) =~= Seq::<Chars>::empty());
        assert(start + Seq::<Chars>::empty() =~= start);
        while k < f.parents.len()
            invariant
                k <= f.parents.len(),
                view == files.deep_view(),
                list == f.parents.deep_view(),
                out.deep_view() == start + unread(view, list.take(k as int)),
            decreases f.parents.len() - k,
        {
            assert(list.take(k + 1).drop_last() =~= list.take(k as int));
            assert(list[k as int] == f.parents@[k as int]@);
            let p = f.parents[k].as_str();
            let ghost rest = unread(view, list.take(k as int));
            if find_config(files, p).is_none() {
                put(&mut out, p.to_owned());
                assert((start + rest).push(p@) =~= start + rest.push(p@));
            }
            k = k + 1;
        }
        assert(list.take(list.len() as int) =~= list);
        n = n + 1;
    }
    out
}

// ---------- candidates ----------

/// One config with what it extends.
pub struct TsConfig {
    /// Root-relative directory holding the config file.
    pub dir: String,
    /// Root-relative `baseUrl`, when set.
    pub base_url: Option<String>,
    pub paths: Vec<PathPattern>,
}

/// A [`TsConfig`] by its contents.
pub struct TsConfigView {
    pub dir: Chars,
    pub base_url: Option<Chars>,
    pub paths: Seq<PatternView>,
}

impl DeepView for TsConfig {
    type V = TsConfigView;

    open spec fn deep_view(&self) -> TsConfigView {
        TsConfigView { dir: self.dir@, base_url: self.base_url.deep_view(), paths: self.paths.deep_view() }
    }
}

/// Every config found under the scanned root, deepest directory first.
pub struct TsConfigs {
    pub configs: Vec<TsConfig>,
}

impl View for TsConfigs {
    type V = Seq<TsConfigView>;

    open spec fn view(&self) -> Seq<TsConfigView> {
        self.configs.deep_view()
    }
}

/// The config of a file.
pub open spec fn resolved_config(files: Seq<ConfigView>, rel: Chars) -> TsConfigView {
    let raw = chain(files, rel, 0);
    TsConfigView {
        dir: dir_of(rel),
        base_url: raw.base_url,
        paths: match raw.paths {
            Some(p) => p,
            None => Seq::empty(),
        },
    }
}

/// The configs of files.
pub open spec fn resolved_configs(files: Seq<ConfigView>, rels: Seq<Chars>) -> Seq<TsConfigView> {
    Seq::new(rels.len(), |i: int| resolved_config(files, rels[i]))
}

/// Keys by depth, the longest directory first, then by name.
pub open spec fn depth_keys(list: Seq<TsConfigView>) -> Seq<KeyView> {
    Seq::new(
        list.len(),
        |i: int|
            KeyView {
                a: (usize::MAX - capped_size(byte_len(list[i].dir))) as usize,
                b: 0,
                s: list[i].dir,
                c: 0,
            },
    )
}

/// The configs of files, deepest directory first.
pub open spec fn configs_of(files: Seq<ConfigView>, rels: Seq<Chars>) -> Seq<TsConfigView> {
    let list = resolved_configs(files, rels);
    Seq::new(list.len(), |i: int| list[ordered(depth_keys(list), list.len() as int)[i]])
}

fn make_config(files: &Vec<ConfigFile>, rel: &str) -> (r: TsConfig)
    ensures
        r.deep_view() == resolved_config(files.deep_view(), rel@),
{
    let raw = read(files, rel, 0);
    let paths = match raw.paths {
        Some(p) => p,
        None => {
            let none: Vec<PathPattern> = Vec::new();
            assert(none.deep_view() =~= Seq::<PatternView>::empty());
            none
        },
    };
    TsConfig { dir: dir(rel), base_url: raw.base_url, paths }
}

/// The config directory applies to files in `from`.
pub open spec fn applies(d: Chars, from: Chars) -> bool {
    d.len() == 0 || from == d || starts(from, d + "/"@)
}

/// The first config from `k` on that applies.
pub open spec fn nearest(configs: Seq<TsConfigView>, from: Chars, k: int) -> Option<int>
    decreases configs.len() - k,
{
    if k < 0 || k >= configs.len() {
        None
    } else if applies(configs[k].dir, from) {
        Some(k)
    } else {
        nearest(configs, from, k + 1)
    }
}

/// One pattern is no worse than another: an exact key beats one with a `*`, then the longer prefix.
pub open spec fn no_worse(p: PatternView, q: PatternView) -> bool {
    if (p.suffix is None) != (q.suffix is None) {
        p.suffix is None
    } else {
        byte_len(p.prefix) >= byte_len(q.prefix)
    }
}

/// The best of the first `n` patterns that match, the last of equals.
pub open spec fn best_pattern(paths: Seq<PatternView>, spec: Chars, n: int) -> Option<int>
    decreases n,
{
    if n <= 0 {
        None
    } else {
        let best = best_pattern(paths, spec, n - 1);
        if capture_of(paths[n - 1], spec) is Some && (best matches Some(b) ==> no_worse(paths[n - 1], paths[b])) {
            Some(n - 1)
        } else {
            best
        }
    }
}

/// A target with what was captured in place of its first `*`.
pub open spec fn filled(target: Chars, cap: Chars) -> Chars {
    match around_first(target, '*') {
        Some((a, b)) => a + cap + b,
        None => target,
    }
}

/// The candidates of a config.
pub open spec fn config_candidates(c: TsConfigView, spec: Chars) -> Seq<Chars> {
    let mapped = match best_pattern(c.paths, spec, c.paths.len() as int) {
        Some(i) => {
            let p = c.paths[i];
            let cap = capture_of(p, spec)->0;
            Seq::new(p.targets.len(), |k: int| filled(p.targets[k], cap))
        },
        None => Seq::empty(),
    };
    match c.base_url {
        Some(b) => mapped.push(read_from(b, spec)),
        None => mapped,
    }
}

/// The candidates for a bare specifier.
pub open spec fn candidates_of(configs: Seq<TsConfigView>, from: Chars, spec: Chars) -> Seq<Chars> {
    match nearest(configs, from, 0) {
        Some(i) => config_candidates(configs[i], spec),
        None => Seq::empty(),
    }
}

fn find_best(paths: &Vec<PathPattern>, spec: &str) -> (r: Option<usize>)
    ensures
        crate::text::as_int(r) == best_pattern(paths.deep_view(), spec@, paths.deep_view().len() as int),
        r matches Some(i) ==> i < paths.len() && capture_of(paths.deep_view()[i as int], spec@) is Some,
{
    let ghost view = paths.deep_view();
    assert(view.len() == paths.len());
    let mut best: Option<usize> = None;
    let mut n: usize = 0;
    while n < paths.len()
        invariant
            n <= paths.len(),
            view == paths.deep_view(),
            crate::text::as_int(best) == best_pattern(view, spec@, n as int),
            best matches Some(i) ==> i < n && capture_of(view[i as int], spec@) is Some,
        decreases paths.len() - n,
    {
        assert(view[n as int] == paths@[n as int].deep_view());
        let p = &paths[n];
        if p.captured(spec).is_some() {
            let take = match best {
                None => true,
                Some(b) => {
                    let q = &paths[b];
                    assert(view[b as int] == q.deep_view());
                    let (x, y): (bool, bool) = (p.suffix.is_none(), q.suffix.is_none());
                    if x != y {
                        x
                    } else {
                        p.prefix.as_str().as_bytes().len() >= q.prefix.as_str().as_bytes().len()
                    }
                },
            };
            if take {
                best = Some(n);
            }
        }
        n = n + 1;
    }
    best
}

fn fill(target: &str, cap: &str) -> (r: String)
    ensures
        r@ == filled(target@, cap@),
{
    match split_once(target, '*') {
        Some((a, b)) => plus(plus(a, cap), b.as_str()),
        None => target.to_owned(),
    }
}

impl TsConfigs {
    /// The configs at `rels`, over the files that were read.
    pub fn new(files: &Vec<ConfigFile>, rels: &Vec<String>) -> (r: TsConfigs)
        ensures
            r@ == configs_of(files.deep_view(), rels.deep_view()),
    {
        let ghost view = rels.deep_view();
        let ghost list = resolved_configs(files.deep_view(), view);
        let mut keys: Vec<Key> = Vec::new();
        let mut k: usize = 0;
        while k < rels.len()
            invariant
                k <= rels.len(),
                keys.len() == k,
                view == rels.deep_view(),
                list == resolved_configs(files.deep_view(), view),
                forall|j: int| 0 <= j < k ==> (#[trigger] keys@[j]).deep_view() == depth_keys(list)[j],
            decreases rels.len() - k,
        {
            assert(view[k as int] == rels@[k as int]@);
            let d = dir(rels[k].as_str());
            let n: usize = d.as_str().as_bytes().len();
            keys.push(Key { a: usize::MAX - n, b: 0, s: d, c: 0 });
            k = k + 1;
        }
        assert(keys.deep_view() =~= depth_keys(list));
        let order = stable_order(&keys);
        let mut configs: Vec<TsConfig> = Vec::new();
        k = 0;
        while k < order.len()
            invariant
                k <= order.len() == rels.len(),
                configs.len() == k,
                view == rels.deep_view(),
                list == resolved_configs(files.deep_view(), view),
                ints(order@) == ordered(depth_keys(list), list.len() as int),
                forall|j: int| 0 <= j < order.len() ==> #[trigger] order@[j] < rels.len(),
                forall|j: int|
                    0 <= j < k ==> (#[trigger] configs@[j]).deep_view() == configs_of(files.deep_view(), view)[j],
            decreases order.len() - k,
        {
            let o: usize = order[k];
            assert(ints(order@)[k as int] == o as int);
            assert(view[o as int] == rels@[o as int]@);
            configs.push(make_config(files, rels[o].as_str()));
            k = k + 1;
        }
        assert(configs.deep_view() =~= configs_of(files.deep_view(), view));
        TsConfigs { configs }
    }

    /// Root-relative candidates for a bare specifier imported from `from_dir`, before extension and
    /// index probing: the longest matching `paths` key's targets in order, then `<baseUrl>/<spec>`
    /// when a baseUrl is set.
    pub fn candidates(&self, from_dir: &str, spec: &str) -> (out: Vec<String>)
        ensures
            out.deep_view() == candidates_of(self@, from_dir@, spec@),
    {
        let ghost view = self.configs.deep_view();
        let mut out: Vec<String> = Vec::new();
        assert(out.deep_view() =~= Seq::<Chars>::empty());
        let mut i: usize = 0;
        while i < self.configs.len()
            invariant
                i <= self.configs.len(),
                view == self.configs.deep_view(),
                out.deep_view() == Seq::<Chars>::empty(),
                nearest(view, from_dir@, 0) == nearest(view, from_dir@, i as int),
            decreases self.configs.len() - i,
        {
            let c = &self.configs[i];
            assert(view[i as int] == c.deep_view());
            let d = c.dir.as_str();
            if d.is_empty() || same(from_dir, d) || starts_with(from_dir, plus(d.to_owned(), "/").as_str()) {
                let ghost mut mapped: Seq<Chars> = Seq::empty();
                if let Some(b) = find_best(&c.paths, spec) {
                    let p = &c.paths[b];
                    assert(c.paths.deep_view()[b as int] == p.deep_view());
                    if let Some(cap) = p.captured(spec) {
                        let ghost targets = p.targets.deep_view();
                        proof {
                            mapped = Seq::new(targets.len(), |k: int| filled(targets[k], cap@));
                        }
                        let mut k: usize = 0;
                        assert(out.deep_view() =~= mapped.take(0));
                        while k < p.targets.len()
                            invariant
                                k <= p.targets.len(),
                                targets == p.targets.deep_view(),
                                mapped == Seq::new(targets.len(), |k: int| filled(targets[k], cap@)),
                                out.deep_view() == mapped.take(k as int),
                            decreases p.targets.len() - k,
                        {
                            assert(targets[k as int] == p.targets@[k as int]@);
                            put(&mut out, fill(p.targets[k].as_str(), cap.as_str()));
                            assert(mapped.take(k + 1) =~= mapped.take(k as int).push(mapped[k as int]));
                            k = k + 1;
                        }
                        assert(mapped.take(mapped.len() as int) =~= mapped);
                    }
                }
                assert(out.deep_view() =~= mapped);
                if let Some(b) = &c.base_url {
                    put(&mut out, join_path(b.as_str(), spec));
                }
                return out;
            }
            i = i + 1;
        }
        out
    }
}

} // verus!
