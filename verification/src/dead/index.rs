//! Definitions and references of every file, side by side.

use vstd::prelude::*;

use crate::config::{Dead, DeadTestOnly};
use crate::dead::walk::{walk, walked, Def, FactsView, MemberDef, Setting, TypeDef};
use crate::discover::{FileKind, SourceFile};
use crate::globs::{glob_hit, glob_match, glob_set, kept_globs, set_globs};
use crate::lang::Language;
use crate::names::{bumped, no_refs, ref_sum, RefCount, Tally};
use crate::regions::{inline_lines, lines_in, regions_from, test_regions, TestRegion};
use crate::text::{before, copy_list, extend, less, put, same, Chars};
use crate::tree::{opt_nodes, reads_as, Nodes, SyntaxTree};

verus! {

/// The Rust shape side of a file: field reads and writes, variant constructions and matches by
/// bare name, wildcard imports and trait impls.
pub struct Shapes {
    pub types: Vec<TypeDef>,
    pub fields: Vec<MemberDef>,
    pub variants: Vec<MemberDef>,
    /// One entry for each read.
    pub field_reads: Vec<String>,
    /// One entry for each write, with its line.
    pub field_writes: Vec<(String, usize)>,
    /// One entry for each construction.
    pub variant_ctors: Vec<String>,
    /// One entry for each mention in a pattern, with its line.
    pub variant_matches: Vec<(String, usize)>,
    /// Last segments of `use …::*` paths, at any scope.
    pub wildcard_uses: Vec<String>,
    /// `(type, trait)` of every `impl Trait for Type`, names without generics.
    pub trait_impls: Vec<(String, String)>,
}

/// One file's side of the index.
pub struct FileIndex {
    pub path: String,
    pub lang: Language,
    /// The whole file is test context (a Test file, `extra_test_globs`, benches).
    pub test_context: bool,
    pub lines: usize,
    pub inline_test_lines: usize,
    pub defs: Vec<Def>,
    /// Identifier references by bare name (a definition's own name node never counts).
    pub refs: Tally,
    /// Words of doc comments and docstrings; counted, never a use.
    pub doc_mentions: Tally,
    pub shapes: Shapes,
}

/// How often `name` is mentioned, by context.
pub open spec fn counted(mentions: Seq<(Chars, bool)>, name: Chars) -> RefCount
    decreases mentions.len(),
{
    if mentions.len() == 0 {
        no_refs()
    } else if mentions.last().0 == name {
        bumped(counted(mentions.drop_last(), name), mentions.last().1)
    } else {
        counted(mentions.drop_last(), name)
    }
}

/// `words`, each as a mention in production context.
pub open spec fn as_mentions(words: Seq<Chars>) -> Seq<(Chars, bool)> {
    Seq::new(words.len(), |i: int| (words[i], false))
}

/// Count every mention.
pub fn tally(mentions: &Vec<(String, bool)>) -> (r: Tally)
    ensures
        r.ok(),
        forall|name: Chars| #[trigger] r.of(name) == counted(mentions.deep_view(), name),
{
    let ghost view = mentions.deep_view();
    let mut r = Tally::new();
    let mut k: usize = 0;
    assert(view.take(0) =~= Seq::<(Chars, bool)>::empty());
    while k < mentions.len()
        invariant
            k <= mentions.len(),
            view == mentions.deep_view(),
            r.ok(),
            forall|name: Chars| #[trigger] r.of(name) == counted(view.take(k as int), name),
        decreases mentions.len() - k,
    {
        assert(view.take(k + 1).drop_last() =~= view.take(k as int));
        let m = &mentions[k];
        assert(view[k as int] == m.deep_view());
        r.bump(m.0.as_str(), m.1);
        k = k + 1;
    }
    assert(view.take(view.len() as int) =~= view);
    r
}

/// Count every word.
pub fn tally_words(words: &Vec<String>) -> (r: Tally)
    ensures
        r.ok(),
        forall|name: Chars| #[trigger] r.of(name) == counted(as_mentions(words.deep_view()), name),
{
    let ghost view = as_mentions(words.deep_view());
    let mut r = Tally::new();
    let mut k: usize = 0;
    assert(view.take(0) =~= Seq::<(Chars, bool)>::empty());
    while k < words.len()
        invariant
            k <= words.len(),
            view == as_mentions(words.deep_view()),
            r.ok(),
            forall|name: Chars| #[trigger] r.of(name) == counted(view.take(k as int), name),
        decreases words.len() - k,
    {
        assert(view.take(k + 1).drop_last() =~= view.take(k as int));
        assert(view[k as int] == (words@[k as int]@, false));
        r.bump(words[k].as_str(), false);
        k = k + 1;
    }
    assert(view.take(view.len() as int) =~= view);
    r
}

impl FileIndex {
    /// The tallies are in order, and every definition has at least one line.
    pub open spec fn ok(&self) -> bool {
        &&& self.refs.ok()
        &&& self.doc_mentions.ok()
        &&& forall|k: int|
            0 <= k < self.defs.len() ==> 1 <= (#[trigger] self.defs@[k]).start_line <= self.defs@[k].end_line
    }

    /// The file holds what a walk collected.
    pub open spec fn holds(&self, f: FactsView) -> bool {
        &&& self.defs.deep_view() == f.defs
        &&& forall|name: Chars| #[trigger] self.refs.of(name) == counted(f.mentions, name)
        &&& forall|name: Chars| #[trigger] self.doc_mentions.of(name) == counted(as_mentions(f.docs), name)
        &&& self.shapes.types.deep_view() == f.types
        &&& self.shapes.fields.deep_view() == f.fields
        &&& self.shapes.variants.deep_view() == f.variants
        &&& self.shapes.field_reads.deep_view() == f.reads
        &&& self.shapes.field_writes.deep_view() == f.writes
        &&& self.shapes.variant_ctors.deep_view() == f.ctors
        &&& self.shapes.variant_matches.deep_view() == f.handled
        &&& self.shapes.wildcard_uses.deep_view() == f.wildcards
        &&& self.shapes.trait_impls.deep_view() == f.impls
    }
}

/// The globs of files that are test context: the extra ones, and the benches where those are not
/// production code.
pub open spec fn context_globs(cfg: DeadTestOnly) -> Seq<Chars> {
    if cfg.treat_benches_as_prod {
        cfg.extra_test_globs.deep_view()
    } else {
        cfg.extra_test_globs.deep_view() + cfg.bench_globs.deep_view()
    }
}

/// The whole file is test context.
pub open spec fn whole_test(file: SourceFile, cfg: Dead) -> bool {
    file.kind == FileKind::Test || glob_hit(context_globs(cfg.test_only), file.path@)
}

/// What a file's side of the index is: its facts under its own context, or nothing where the
/// parse failed.
pub open spec fn side_of(
    fi: FileIndex,
    file: SourceFile,
    root: Option<Nodes>,
    regions: Seq<TestRegion>,
    cfg: Dead,
) -> bool {
    &&& fi.ok()
    &&& fi.path@ == file.path@
    &&& fi.lang == file.lang
    &&& fi.test_context == whole_test(file, cfg)
    &&& fi.lines == file.lines
    &&& fi.inline_test_lines == lines_in(regions)
    &&& fi.holds(
        match root {
            Some(t) => walked(t, fi.test_context, regions, file.lang, cfg, file.path@),
            None => crate::dead::walk::no_facts(),
        },
    )
}

/// The inline test regions of a parsed file; only Rust has any.
pub open spec fn regions_of(lang: Language, root: Option<Nodes>) -> Seq<TestRegion> {
    match root {
        Some(t) => if lang == Language::Rust {
            regions_from(t, 0)
        } else {
            Seq::empty()
        },
        None => Seq::empty(),
    }
}

/// What a file's side of the index is when it is parsed on its own.
pub open spec fn parsed_side(fi: FileIndex, file: SourceFile, cfg: Dead) -> bool {
    exists|root: Option<Nodes>| #[trigger]
        reads_as(file.lang, file.content@, root) && side_of(fi, file, root, regions_of(file.lang, root), cfg)
}

/// Which discovered files the index is built from.
pub fn indexed(f: &SourceFile) -> (r: bool)
    ensures
        r == (f.kind == FileKind::Source || f.kind == FileKind::Test),
{
    f.kind == FileKind::Source || f.kind == FileKind::Test
}

/// Config-derived matchers, built once and shared by every file walk.
pub struct Walker<'c> {
    pub cfg: &'c Dead,
    pub test_globs: globset::GlobSet,
}

/// A walk's definitions have at least one line each.
pub proof fn defs_have_lines(
    t: Nodes,
    i: int,
    st: FactsView,
    bases: Seq<crate::dead::walk::Ctx>,
    initial: crate::dead::walk::Ctx,
    regions: Seq<TestRegion>,
    lang: Language,
    cfg: Dead,
    path: Chars,
)
    requires
        crate::tree::tree_ok(t),
        0 <= i <= t.len(),
        forall|k: int| 0 <= k < st.defs.len() ==> 1 <= (#[trigger] st.defs[k]).start_line <= st.defs[k].end_line,
    ensures
        forall|k: int|
            0 <= k < crate::dead::walk::walked_from(t, i, st, bases, initial, regions, lang, cfg, path).defs.len() ==> 1
                <= (#[trigger] crate::dead::walk::walked_from(
                t,
                i,
                st,
                bases,
                initial,
                regions,
                lang,
                cfg,
                path,
            ).defs[k]).start_line <= crate::dead::walk::walked_from(
                t,
                i,
                st,
                bases,
                initial,
                regions,
                lang,
                cfg,
                path,
            ).defs[k].end_line,
    decreases t.len() - i,
{
    if i < t.len() {
        assert(crate::tree::node_ok(t, i));
        let ctx = crate::dead::walk::ctx_at(t, i, bases, initial, regions, lang);
        let (next, base) = crate::dead::walk::node_step(t, i, ctx, st, lang, cfg, path);
        step_defs_have_lines(t, i, ctx, st, lang, cfg, path);
        defs_have_lines(t, i + 1, next, bases.push(base), initial, regions, lang, cfg, path);
    }
}

#[verifier::spinoff_prover]
#[verifier::rlimit(60)]
proof fn step_defs_have_lines(
    t: Nodes,
    i: int,
    ctx: crate::dead::walk::Ctx,
    st: FactsView,
    lang: Language,
    cfg: Dead,
    path: Chars,
)
    requires
        crate::tree::tree_ok(t),
        0 <= i < t.len(),
        forall|k: int| 0 <= k < st.defs.len() ==> 1 <= (#[trigger] st.defs[k]).start_line <= st.defs[k].end_line,
    ensures
        forall|k: int|
            0 <= k < crate::dead::walk::node_step(t, i, ctx, st, lang, cfg, path).0.defs.len() ==> 1 <= (
            #[trigger] crate::dead::walk::node_step(t, i, ctx, st, lang, cfg, path).0.defs[k]).start_line
                <= crate::dead::walk::node_step(t, i, ctx, st, lang, cfg, path).0.defs[k].end_line,
{
    assert(crate::tree::node_ok(t, i));
    if lang != Language::Rust && lang != Language::Python {
        let kids = crate::tree::named_kids(t, i);
        crate::tree::named_kids_are_later(t, i);
        declarators_have_lines(t, kids, 0, ctx, st, cfg, path);
    }
}

proof fn declarators_have_lines(
    t: Nodes,
    kids: Seq<usize>,
    k: int,
    ctx: crate::dead::walk::Ctx,
    st: FactsView,
    cfg: Dead,
    path: Chars,
)
    requires
        crate::tree::tree_ok(t),
        0 <= k <= kids.len(),
        forall|j: int| 0 <= j < kids.len() ==> #[trigger] kids[j] < t.len(),
        forall|k: int| 0 <= k < st.defs.len() ==> 1 <= (#[trigger] st.defs[k]).start_line <= st.defs[k].end_line,
    ensures
        forall|j: int|
            0 <= j < crate::dead::walk::ts_declarators(t, kids, k, ctx, st, cfg, path).defs.len() ==> 1 <= (
            #[trigger] crate::dead::walk::ts_declarators(t, kids, k, ctx, st, cfg, path).defs[j]).start_line
                <= crate::dead::walk::ts_declarators(t, kids, k, ctx, st, cfg, path).defs[j].end_line,
    decreases kids.len() - k,
{
    if k < kids.len() {
        assert(crate::tree::node_ok(t, kids[k] as int));
        declarators_have_lines(
            t,
            kids,
            k + 1,
            ctx,
            crate::dead::walk::ts_declarator(t, kids[k], ctx, st, cfg, path),
            cfg,
            path,
        );
    }
}

impl<'c> Walker<'c> {
    /// The matchers of `cfg`.
    pub fn new(cfg: &'c Dead) -> (r: Self)
        ensures
            r.cfg == cfg,
            set_globs(r.test_globs) == kept_globs(context_globs(cfg.test_only)),
    {
        let mut globs = copy_list(&cfg.test_only.extra_test_globs);
        if !cfg.test_only.treat_benches_as_prod {
            extend(&mut globs, &cfg.test_only.bench_globs);
        }
        Walker { cfg, test_globs: glob_set(&globs) }
    }

    /// Made from its own settings.
    pub open spec fn ok(&self) -> bool {
        set_globs(self.test_globs) == kept_globs(context_globs(self.cfg.test_only))
    }

    /// Is the whole file test context?
    pub fn test_context(&self, file: &SourceFile) -> (r: bool)
        requires
            self.ok(),
        ensures
            r == whole_test(*file, *self.cfg),
    {
        file.kind == FileKind::Test || glob_match(&self.test_globs, file.path.as_str())
    }

    /// One file's side of the index on an already-parsed tree (`None` when the parse failed: no
    /// definitions, no references). `regions` are the file's inline test regions.
    pub fn file_index(&self, root: Option<&SyntaxTree>, file: &SourceFile, regions: &Vec<TestRegion>) -> (fi: FileIndex)
        requires
            self.ok(),
            root matches Some(t) ==> t.ok(),
        ensures
            side_of(
                fi,
                *file,
                match root {
                    Some(t) => Some(t@),
                    None => None,
                },
                regions@,
                *self.cfg,
            ),
    {
        let test_context = self.test_context(file);
        let set = Setting { cfg: self.cfg, lang: file.lang, path: file.path.as_str() };
        let st = match root {
            Some(t) => {
                let st = walk(t, test_context, regions, &set);
                proof {
                    defs_have_lines(
                        t@,
                        0,
                        crate::dead::walk::no_facts(),
                        Seq::empty(),
                        crate::dead::walk::top_ctx(test_context),
                        regions@,
                        file.lang,
                        *self.cfg,
                        file.path@,
                    );
                    assert(forall|k: int|
                        0 <= k < st@.defs.len() ==> 1 <= (#[trigger] st@.defs[k]).start_line <= st@.defs[k].end_line);
                }
                st
            },
            None => crate::dead::walk::Facts::new(),
        };
        let ghost view = st@;
        assert(forall|k: int|
            0 <= k < view.defs.len() ==> 1 <= (#[trigger] view.defs[k]).start_line <= view.defs[k].end_line);
        let refs = tally(&st.mentions);
        let doc_mentions = tally_words(&st.docs);
        let fi = FileIndex {
            path: file.path.clone(),
            lang: file.lang,
            test_context,
            lines: file.lines,
            inline_test_lines: inline_lines(regions),
            defs: st.defs,
            refs,
            doc_mentions,
            shapes: Shapes {
                types: st.types,
                fields: st.fields,
                variants: st.variants,
                field_reads: st.reads,
                field_writes: st.writes,
                variant_ctors: st.ctors,
                variant_matches: st.handled,
                wildcard_uses: st.wildcards,
                trait_impls: st.impls,
            },
        };
        assert forall|k: int| 0 <= k < fi.defs.len() implies 1 <= (#[trigger] fi.defs@[k]).start_line
            <= fi.defs@[k].end_line by {
            assert(view.defs[k] == fi.defs@[k].deep_view());
        }
        fi
    }

    /// Parse and index one file on its own.
    pub fn parse_index(&self, file: &SourceFile) -> (fi: FileIndex)
        requires
            self.ok(),
        ensures
            parsed_side(fi, *file, *self.cfg),
    {
        let tree = SyntaxTree::parse(file.lang, file.content.as_str());
        let ghost root = opt_nodes(tree);
        let regions: Vec<TestRegion> = match &tree {
            Some(t) => if file.lang == Language::Rust {
                test_regions(t)
            } else {
                Vec::new()
            },
            None => Vec::new(),
        };
        assert(regions@ =~= regions_of(file.lang, root));
        let fi = match &tree {
            Some(t) => self.file_index(Some(t), file, &regions),
            None => self.file_index(None, file, &regions),
        };
        assert(reads_as(file.lang, file.content@, root));
        fi
    }
}

/// The first file, from `k` on, whose path comes after `path`.
pub open spec fn file_slot(list: Seq<FileIndex>, path: Chars, k: int) -> int
    decreases list.len() - k,
{
    if k < 0 || k >= list.len() {
        list.len() as int
    } else if before(path, list[k].path@) {
        k
    } else {
        file_slot(list, path, k + 1)
    }
}

/// The files by path; of equal paths the earlier one first.
pub open spec fn by_path(files: Seq<FileIndex>) -> Seq<FileIndex>
    decreases files.len(),
{
    if files.len() == 0 {
        Seq::empty()
    } else {
        let list = by_path(files.drop_last());
        list.insert(file_slot(list, files.last().path@, 0), files.last())
    }
}

/// Definitions and references of every indexed file.
pub struct SymbolIndex {
    /// Sorted by path.
    pub files: Vec<FileIndex>,
}

/// The last file with the path `path`.
pub open spec fn file_at(files: Seq<FileIndex>, path: Chars) -> Option<int>
    decreases files.len(),
{
    if files.len() == 0 {
        None
    } else if files.last().path@ == path {
        Some(files.len() - 1)
    } else {
        file_at(files.drop_last(), path)
    }
}

/// The definitions of `name` among `defs`.
pub open spec fn defs_named(defs: Seq<Def>, name: Chars) -> nat
    decreases defs.len(),
{
    if defs.len() == 0 {
        0
    } else {
        defs_named(defs.drop_last(), name) + (if defs.last().name@ == name {
            1nat
        } else {
            0
        })
    }
}

/// The definitions of `name` in all files.
pub open spec fn defs_of(files: Seq<FileIndex>, name: Chars) -> nat
    decreases files.len(),
{
    if files.len() == 0 {
        0
    } else {
        defs_of(files.drop_last(), name) + defs_named(files.last().defs@, name)
    }
}

/// The definitions of `name` among `defs`, in order.
pub open spec fn named_defs(defs: Seq<Def>, name: Chars) -> Seq<Def>
    decreases defs.len(),
{
    if defs.len() == 0 {
        Seq::empty()
    } else {
        let rest = named_defs(defs.drop_last(), name);
        if defs.last().name@ == name {
            rest.push(defs.last())
        } else {
            rest
        }
    }
}

/// The definitions of `name` in all files, in order.
pub open spec fn definitions_of(files: Seq<FileIndex>, name: Chars) -> Seq<Def>
    decreases files.len(),
{
    if files.len() == 0 {
        Seq::empty()
    } else {
        definitions_of(files.drop_last(), name) + named_defs(files.last().defs@, name)
    }
}

/// The files that refer to `name`, with how often.
pub open spec fn refs_from_files(files: Seq<FileIndex>, name: Chars) -> Seq<(Chars, RefCount)>
    decreases files.len(),
{
    if files.len() == 0 {
        Seq::empty()
    } else {
        let rest = refs_from_files(files.drop_last(), name);
        let n = files.last().refs.of(name);
        if n.prod > 0 || n.test > 0 {
            rest.push((files.last().path@, n))
        } else {
            rest
        }
    }
}

/// References to `name` from the file at `path`.
pub open spec fn refs_at(files: Seq<FileIndex>, name: Chars, path: Chars) -> RefCount {
    match file_at(files, path) {
        Some(i) => files[i].refs.of(name),
        None => no_refs(),
    }
}

/// References to `name` from every file but the one at `path`.
pub open spec fn refs_beyond(files: Seq<FileIndex>, name: Chars, path: Chars) -> RefCount
    decreases files.len(),
{
    if files.len() == 0 {
        no_refs()
    } else {
        let rest = refs_beyond(files.drop_last(), name, path);
        if files.last().path@ != path {
            ref_sum(rest, files.last().refs.of(name))
        } else {
            rest
        }
    }
}

/// Mentions of `name` in the docs of all files.
pub open spec fn docs_of(files: Seq<FileIndex>, name: Chars) -> RefCount
    decreases files.len(),
{
    if files.len() == 0 {
        no_refs()
    } else {
        ref_sum(docs_of(files.drop_last(), name), files.last().doc_mentions.of(name))
    }
}

/// The paths of the files that refer to `name` from tests.
pub open spec fn tested_from(files: Seq<FileIndex>, name: Chars) -> Seq<Chars>
    decreases files.len(),
{
    if files.len() == 0 {
        Seq::empty()
    } else if files.last().refs.of(name).test > 0 {
        tested_from(files.drop_last(), name).push(files.last().path@)
    } else {
        tested_from(files.drop_last(), name)
    }
}

impl SymbolIndex {
    /// Every file is in order.
    pub open spec fn ok(&self) -> bool {
        forall|k: int| 0 <= k < self.files.len() ==> (#[trigger] self.files@[k]).ok()
    }

    /// The index of `files`, sorted by path.
    pub fn build(files: Vec<FileIndex>) -> (r: SymbolIndex)
        requires
            forall|k: int| 0 <= k < files.len() ==> (#[trigger] files@[k]).ok(),
        ensures
            r.files@ == by_path(files@),
            r.ok(),
    {
        let ghost all = files@;
        let mut files = files;
        let mut out: Vec<FileIndex> = Vec::new();
        let ghost mut n: int = 0;
        assert(all.skip(0) =~= all);
        assert(all.take(0) =~= Seq::<FileIndex>::empty());
        while files.len() > 0
            invariant
                0 <= n <= all.len(),
                files@ == all.skip(n),
                out@ == by_path(all.take(n)),
                forall|k: int| 0 <= k < all.len() ==> (#[trigger] all[k]).ok(),
                forall|k: int| 0 <= k < out.len() ==> (#[trigger] out@[k]).ok(),
            decreases files.len(),
        {
            let f = files.remove(0);
            proof {
                assert(f == all[n]);
                assert(all.skip(n).remove(0) =~= all.skip(n + 1));
                assert(all.take(n + 1).drop_last() =~= all.take(n));
            }
            let ghost list = out@;
            let mut k: usize = 0;
            while k < out.len() && !less(f.path.as_str(), out[k].path.as_str())
                invariant
                    k <= out.len(),
                    list == out@,
                    file_slot(list, f.path@, 0) == file_slot(list, f.path@, k as int),
                decreases out.len() - k,
            {
                k = k + 1;
            }
            out.insert(k, f);
            assert forall|j: int| 0 <= j < out.len() implies (#[trigger] out@[j]).ok() by {
                if j < k {
                    assert(out@[j] == list[j]);
                } else if j > k {
                    assert(out@[j] == list[j - 1]);
                }
            }
            proof {
                n = n + 1;
            }
        }
        assert(all.take(n) =~= all);
        SymbolIndex { files: out }
    }

    /// The file at `path`; the last of several.
    pub fn file(&self, path: &str) -> (r: Option<&FileIndex>)
        ensures
            match file_at(self.files@, path@) {
                Some(i) => 0 <= i < self.files.len() && r == Some(&self.files@[i]),
                None => r is None,
            },
    {
        match self.place_of(path) {
            Some(i) => Some(&self.files[i]),
            None => None,
        }
    }

    fn place_of(&self, path: &str) -> (r: Option<usize>)
        ensures
            crate::text::as_int(r) == file_at(self.files@, path@),
            r matches Some(i) ==> i < self.files.len(),
    {
        let mut n: usize = self.files.len();
        assert(self.files@.take(n as int) =~= self.files@);
        while n > 0
            invariant
                n <= self.files.len(),
                file_at(self.files@, path@) == file_at(self.files@.take(n as int), path@),
            decreases n,
        {
            if same(self.files[n - 1].path.as_str(), path) {
                return Some(n - 1);
            }
            assert(self.files@.take(n as int).drop_last() =~= self.files@.take(n - 1));
            n = n - 1;
        }
        None
    }

    /// The number of definitions sharing the bare name; the largest number stands for anything
    /// beyond it.
    pub fn samename(&self, name: &str) -> (n: usize)
        ensures
            n == (if defs_of(self.files@, name@) <= usize::MAX {
                defs_of(self.files@, name@)
            } else {
                usize::MAX as nat
            }),
    {
        let mut total: usize = 0;
        let mut i: usize = 0;
        assert(self.files@.take(0) =~= Seq::<FileIndex>::empty());
        while i < self.files.len()
            invariant
                i <= self.files.len(),
                total == (if defs_of(self.files@.take(i as int), name@) <= usize::MAX {
                    defs_of(self.files@.take(i as int), name@)
                } else {
                    usize::MAX as nat
                }),
            decreases self.files.len() - i,
        {
            assert(self.files@.take(i + 1).drop_last() =~= self.files@.take(i as int));
            let defs = &self.files[i].defs;
            let mut here: usize = 0;
            let mut k: usize = 0;
            assert(defs@.take(0) =~= Seq::<Def>::empty());
            while k < defs.len()
                invariant
                    k <= defs.len(),
                    here <= k,
                    here == defs_named(defs@.take(k as int), name@),
                decreases defs.len() - k,
            {
                assert(defs@.take(k + 1).drop_last() =~= defs@.take(k as int));
                if same(defs[k].name.as_str(), name) {
                    here = here + 1;
                }
                k = k + 1;
            }
            assert(defs@.take(defs@.len() as int) =~= defs@);
            total = total.saturating_add(here);
            i = i + 1;
        }
        assert(self.files@.take(self.files@.len() as int) =~= self.files@);
        total
    }

    /// Every definition of `name`, any file, any visibility, any context.
    pub fn definitions(&self, name: &str) -> (out: Vec<&Def>)
        ensures
            out.len() == definitions_of(self.files@, name@).len(),
            forall|i: int| 0 <= i < out.len() ==> *(#[trigger] out@[i]) == definitions_of(self.files@, name@)[i],
    {
        let mut out: Vec<&Def> = Vec::new();
        let mut i: usize = 0;
        assert(self.files@.take(0) =~= Seq::<FileIndex>::empty());
        while i < self.files.len()
            invariant
                i <= self.files.len(),
                out.len() == definitions_of(self.files@.take(i as int), name@).len(),
                forall|j: int|
                    0 <= j < out.len() ==> *(#[trigger] out@[j]) == definitions_of(self.files@.take(i as int), name@)[j],
            decreases self.files.len() - i,
        {
            assert(self.files@.take(i + 1).drop_last() =~= self.files@.take(i as int));
            let ghost done = definitions_of(self.files@.take(i as int), name@);
            let defs = &self.files[i].defs;
            let mut k: usize = 0;
            assert(defs@.take(0) =~= Seq::<Def>::empty());
            assert(done + named_defs(defs@.take(0), name@) =~= done);
            while k < defs.len()
                invariant
                    k <= defs.len(),
                    out.len() == (done + named_defs(defs@.take(k as int), name@)).len(),
                    forall|j: int|
                        0 <= j < out.len() ==> *(#[trigger] out@[j]) == (done + named_defs(defs@.take(k as int), name@))[j],
                decreases defs.len() - k,
            {
                assert(defs@.take(k + 1).drop_last() =~= defs@.take(k as int));
                if same(defs[k].name.as_str(), name) {
                    out.push(&defs[k]);
                }
                k = k + 1;
            }
            assert(defs@.take(defs@.len() as int) =~= defs@);
            i = i + 1;
        }
        assert(self.files@.take(self.files@.len() as int) =~= self.files@);
        out
    }

    /// The path and the references of every file that refers to `name`.
    pub fn refs_by_file(&self, name: &str) -> (out: Vec<(String, RefCount)>)
        requires
            self.ok(),
        ensures
            out.deep_view() == refs_from_files(self.files@, name@),
    {
        let mut out: Vec<(String, RefCount)> = Vec::new();
        let mut i: usize = 0;
        assert(self.files@.take(0) =~= Seq::<FileIndex>::empty());
        assert(out.deep_view() =~= Seq::<(Chars, RefCount)>::empty());
        while i < self.files.len()
            invariant
                i <= self.files.len(),
                self.ok(),
                out.deep_view() == refs_from_files(self.files@.take(i as int), name@),
            decreases self.files.len() - i,
        {
            assert(self.files@.take(i + 1).drop_last() =~= self.files@.take(i as int));
            let f = &self.files[i];
            let n = f.refs.get(name);
            if n.prod > 0 || n.test > 0 {
                put(&mut out, (f.path.as_str().to_owned(), n));
            }
            i = i + 1;
        }
        assert(self.files@.take(self.files@.len() as int) =~= self.files@);
        out
    }

    /// References to `name` from `path` alone.
    pub fn refs_in(&self, name: &str, path: &str) -> (r: RefCount)
        requires
            self.ok(),
        ensures
            r == refs_at(self.files@, name@, path@),
    {
        match self.place_of(path) {
            Some(i) => self.files[i].refs.get(name),
            None => RefCount { prod: 0, test: 0 },
        }
    }

    /// References to `name` from every file but `path`.
    pub fn external_refs(&self, name: &str, path: &str) -> (r: RefCount)
        requires
            self.ok(),
        ensures
            r == refs_beyond(self.files@, name@, path@),
    {
        let mut out = RefCount { prod: 0, test: 0 };
        let mut i: usize = 0;
        assert(self.files@.take(0) =~= Seq::<FileIndex>::empty());
        while i < self.files.len()
            invariant
                i <= self.files.len(),
                self.ok(),
                out == refs_beyond(self.files@.take(i as int), name@, path@),
            decreases self.files.len() - i,
        {
            assert(self.files@.take(i + 1).drop_last() =~= self.files@.take(i as int));
            let f = &self.files[i];
            if !same(f.path.as_str(), path) {
                out.add(f.refs.get(name));
            }
            i = i + 1;
        }
        assert(self.files@.take(self.files@.len() as int) =~= self.files@);
        out
    }

    /// Mentions of `name` in docs.
    pub fn doc_mentions(&self, name: &str) -> (n: u32)
        requires
            self.ok(),
        ensures
            n == docs_of(self.files@, name@).prod,
    {
        let mut out = RefCount { prod: 0, test: 0 };
        let mut i: usize = 0;
        assert(self.files@.take(0) =~= Seq::<FileIndex>::empty());
        while i < self.files.len()
            invariant
                i <= self.files.len(),
                self.ok(),
                out == docs_of(self.files@.take(i as int), name@),
            decreases self.files.len() - i,
        {
            assert(self.files@.take(i + 1).drop_last() =~= self.files@.take(i as int));
            out.add(self.files[i].doc_mentions.get(name));
            i = i + 1;
        }
        assert(self.files@.take(self.files@.len() as int) =~= self.files@);
        out.prod
    }

    /// The paths of the files that refer to `name` from tests, in the order of the index.
    pub fn test_files(&self, name: &str) -> (out: Vec<String>)
        requires
            self.ok(),
        ensures
            out.deep_view() == tested_from(self.files@, name@),
    {
        let mut out: Vec<String> = Vec::new();
        let mut i: usize = 0;
        assert(self.files@.take(0) =~= Seq::<FileIndex>::empty());
        assert(out.deep_view() =~= Seq::<Chars>::empty());
        while i < self.files.len()
            invariant
                i <= self.files.len(),
                self.ok(),
                out.deep_view() == tested_from(self.files@.take(i as int), name@),
            decreases self.files.len() - i,
        {
            assert(self.files@.take(i + 1).drop_last() =~= self.files@.take(i as int));
            if self.files[i].refs.get(name).test > 0 {
                put(&mut out, self.files[i].path.clone());
            }
            i = i + 1;
        }
        assert(self.files@.take(self.files@.len() as int) =~= self.files@);
        out
    }
}

/// The file is one the index is built from.
pub open spec fn is_indexed(f: SourceFile) -> bool {
    f.kind == FileKind::Source || f.kind == FileKind::Test
}

/// `list` is the sides of the indexed ones of `files`, each parsed on its own, in order.
pub open spec fn sides_of(list: Seq<FileIndex>, files: Seq<SourceFile>, cfg: Dead) -> bool
    decreases files.len(),
{
    if files.len() == 0 {
        list.len() == 0
    } else if is_indexed(files.last()) {
        list.len() > 0 && parsed_side(list.last(), files.last(), cfg) && sides_of(
            list.drop_last(),
            files.drop_last(),
            cfg,
        )
    } else {
        sides_of(list, files.drop_last(), cfg)
    }
}

/// Index every Source and Test file, parsing each once.
pub fn index_all(files: &Vec<SourceFile>, cfg: &Dead) -> (r: SymbolIndex)
    ensures
        r.ok(),
        exists|list: Seq<FileIndex>| #[trigger] sides_of(list, files@, *cfg) && r.files@ == by_path(list),
{
    let w = Walker::new(cfg);
    let mut sides: Vec<FileIndex> = Vec::new();
    let mut k: usize = 0;
    assert(files@.take(0) =~= Seq::<SourceFile>::empty());
    while k < files.len()
        invariant
            k <= files.len(),
            w.ok(),
            w.cfg == cfg,
            sides_of(sides@, files@.take(k as int), *cfg),
            forall|j: int| 0 <= j < sides.len() ==> (#[trigger] sides@[j]).ok(),
        decreases files.len() - k,
    {
        assert(files@.take(k + 1).drop_last() =~= files@.take(k as int));
        if indexed(&files[k]) {
            let ghost was = sides@;
            sides.push(w.parse_index(&files[k]));
            assert(sides@.drop_last() =~= was);
        }
        k = k + 1;
    }
    assert(files@.take(files@.len() as int) =~= files@);
    SymbolIndex::build(sides)
}

/// Index test files on trees that were parsed once: the whole file is test context, so there are no
/// regions.
pub fn index_tests(tests: &Vec<(&SourceFile, Option<SyntaxTree>)>, cfg: &Dead) -> (out: Vec<FileIndex>)
    requires
        forall|k: int| 0 <= k < tests.len() ==> ((#[trigger] tests@[k]).1 matches Some(t) ==> t.ok()),
    ensures
        out.len() == tests.len(),
        forall|k: int|
            0 <= k < tests.len() ==> side_of(#[trigger] out@[k], *tests@[k].0, opt_nodes(tests@[k].1), Seq::empty(), *cfg),
{
    let w = Walker::new(cfg);
    let none: Vec<TestRegion> = Vec::new();
    assert(none@ =~= Seq::<TestRegion>::empty());
    let mut out: Vec<FileIndex> = Vec::new();
    let mut k: usize = 0;
    while k < tests.len()
        invariant
            k <= tests.len(),
            w.ok(),
            w.cfg == cfg,
            none@ == Seq::<TestRegion>::empty(),
            out.len() == k,
            forall|j: int| 0 <= j < tests.len() ==> ((#[trigger] tests@[j]).1 matches Some(t) ==> t.ok()),
            forall|j: int|
                0 <= j < k ==> side_of(#[trigger] out@[j], *tests@[j].0, opt_nodes(tests@[j].1), Seq::empty(), *cfg),
        decreases tests.len() - k,
    {
        assert(tests@[k as int].1 matches Some(t) ==> t.ok());
        let root: Option<&SyntaxTree> = match &tests[k].1 {
            Some(t) => Some(t),
            None => None,
        };
        out.push(w.file_index(root, tests[k].0, &none));
        k = k + 1;
    }
    out
}

} // verus!
