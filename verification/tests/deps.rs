use scry::config::{Deps as Cfg, Discover};
use scry::deps::assemble::{build as build_graph, DepGraph, FileDeps};
use scry::deps::extract::EdgeKind;
use scry::deps::words::{common_dir, short_name, symbol_names};
use scry::discover::{classify, SourceFile};
use scry::lang::Language;

fn sf(path: &str, content: &str) -> SourceFile {
    let lang = Language::from_path(path).unwrap();
    let kind = classify(path, content, 1, false, &Discover::default());
    SourceFile { path: path.into(), lang, kind, lines: 1, bytes: content.len(), content: content.into() }
}

/// By the size of a cycle, the size from which what a cut leaves is at least `share` of it.
fn floors(n: usize, share: f64) -> Vec<usize> {
    (0..=n).map(|i| (share * i as f64).ceil() as usize).collect()
}

fn build_with(files: &Vec<SourceFile>, cfg: &Cfg, share: f64) -> DepGraph {
    build_graph(files, cfg, &floors(files.len(), share))
}

fn build(files: &Vec<SourceFile>, cfg: &Cfg) -> DepGraph {
    build_with(files, cfg, 0.8)
}

fn file(g: &DepGraph, path: &str) -> FileDeps {
    g.files.iter().find(|f| f.0 == path).unwrap().1
}

#[test]
fn python_cycle_and_relative_imports() {
    let files = vec![
        sf("backend/engine/__init__.py", ""),
        sf("backend/engine/a.py", "from engine import b\nfrom .c import thing\n"),
        sf("backend/engine/b.py", "import engine.a\n"),
        sf("backend/engine/c.py", "from . import a\n"),
        sf("backend/tests/test_a.py", "from engine.a import x\n"),
    ];
    let g = build(&files, &Cfg::default());
    assert_eq!(g.file_cycles.len(), 1);
    assert_eq!(g.file_cycles[0].members, vec!["backend/engine/a.py", "backend/engine/b.py", "backend/engine/c.py"]);
    let a = file(&g, "backend/engine/a.py");
    assert_eq!(a.test_refs, 1);
    assert_eq!(a.fan_in, 2); // b and c
    assert!(g.dir_cycles.is_empty());
}

#[test]
fn js_alias_from_config() {
    let files = vec![
        sf("web/app/a.ts", "import x from '#lib/x'\n"),
        sf("web/lib/x.ts", ""),
    ];
    assert_eq!(file(&build(&files, &Cfg::default()), "web/app/a.ts").external, 1);
    let mut cfg = Cfg::default();
    cfg.js_aliases.insert(0, ("#lib/".into(), "lib".into()));
    assert_eq!(file(&build(&files, &cfg), "web/app/a.ts").fan_out, 1);
}

#[test]
fn ts_resolution_and_dir_cycle() {
    let files = vec![
        sf("src/a/x.ts", "import { y } from '../b/y'\nexport * from './z.js'\n"),
        sf("src/a/z.ts", ""),
        sf("src/b/y.tsx", "import x from '@/a/x'\nimport React from 'react'\n"),
        sf("src/b/index.ts", "export const q = require('./y')\n"),
    ];
    let g = build(&files, &Cfg::default());
    assert_eq!(file(&g, "src/a/x.ts").fan_out, 2);
    assert_eq!(file(&g, "src/b/y.tsx").external, 1);
    assert_eq!(g.file_cycles.len(), 1);
    assert_eq!(g.dir_cycles.len(), 1);
    assert_eq!(g.dir_cycles[0].members, vec!["src/a", "src/b"]);
    assert!(g.connected("src/b/index.ts", "src/b/y.tsx"));
}

#[test]
fn rust_grouped_use_and_wildcards() {
    let files = vec![
        sf("src/main.rs", "mod deps;\nmod lang;\nmod util;\n"),
        sf("src/deps/mod.rs", "use crate::{lang::Language, util};\n"),
        sf("src/lang/mod.rs", "use crate::deps::{self, Cycle as C};\n"),
        sf("src/util.rs", "use super::*;\nuse self::inner::x;\n"),
    ];
    let g = build(&files, &Cfg::default());
    assert_eq!(file(&g, "src/deps/mod.rs").fan_out, 2);
    assert_eq!(file(&g, "src/lang/mod.rs").fan_out, 1);
    assert!(g.connected("src/util.rs", "src/main.rs"));
    assert_eq!(g.file_cycles.len(), 1);
}

#[test]
fn inline_test_module_super_is_the_file_itself() {
    let files = vec![
        sf("src/main.rs", "mod a;\nmod b;\n"),
        sf("src/a.rs", "pub fn f() {}\n#[cfg(test)]\nmod tests {\n    use super::*;\n    use super::super::b::g;\n    mod deeper { use super::super::f; }\n}\n"),
        sf("src/b.rs", "pub fn g() {}\n"),
    ];
    let g = build(&files, &Cfg::default());
    assert_eq!(file(&g, "src/a.rs").fan_out, 1);
    assert!(g.connected("src/a.rs", "src/b.rs"));
    assert!(g.edge("src/a.rs", "src/main.rs").is_none());
}

#[test]
fn vendored_code_is_not_in_the_graph() {
    let files = vec![
        sf("vendor/lib/a.js", "import {b} from './b'\n"),
        sf("vendor/lib/b.js", "import {a} from './a'\n"),
        sf("src/x.ts", "import {a} from '../vendor/lib/a'\n"),
    ];
    let g = build(&files, &Cfg::default());
    assert!(g.file_cycles.is_empty());
    assert!(!g.files.iter().any(|f| f.0 == "vendor/lib/a.js"));
    assert_eq!(file(&g, "src/x.ts").external, 1);
}

#[test]
fn rust_mod_and_crate_paths() {
    let files = vec![
        sf("src/main.rs", "mod deps;\nmod lang;\n"),
        sf("src/deps/mod.rs", "use crate::lang::Language;\n"),
        sf("src/lang/mod.rs", "use super::deps::Cycle;\n"),
    ];
    let g = build(&files, &Cfg::default());
    assert_eq!(file(&g, "src/main.rs").fan_out, 2);
    assert!(g.connected("src/deps/mod.rs", "src/lang/mod.rs"));
    assert_eq!(g.file_cycles.len(), 1);
}

#[test]
fn rust_edges_carry_kind_and_distinct_symbols() {
    let files = vec![
        sf("src/main.rs", "mod a;\nmod e;\nuse crate::a::Top;\n"),
        sf("src/a.rs", "use crate::e::{B, C};\nuse crate::e::D;\nuse crate::e::B;\nuse crate::f::*;\n"),
        sf("src/e.rs", ""),
        sf("src/f.rs", ""),
    ];
    let g = build(&files, &Cfg::default());
    let m = g.edge("src/main.rs", "src/a.rs").unwrap();
    assert_eq!((m.kind, m.symbols, m.line), (EdgeKind::Mod, 2, 1));
    assert_eq!(m.names, vec!["Top", "a"]);
    let ae = g.edge("src/a.rs", "src/e.rs").unwrap();
    assert_eq!((ae.kind, ae.symbols, ae.glob, ae.line), (EdgeKind::Use, 3, false, 1));
    assert_eq!(ae.names, vec!["B", "C", "D"]);
    let af = g.edge("src/a.rs", "src/f.rs").unwrap();
    assert_eq!((af.kind, af.symbols, af.glob, af.line), (EdgeKind::Use, 20, true, 4));
    assert_eq!(symbol_names(&af.names, af.glob), "*");
}

#[test]
fn ts_type_only_imports_are_tagged_and_python_counts_names() {
    let files = vec![
        sf("src/x.ts", "import type { A, B } from './y'\nimport { type C, D, E as F } from './z'\nimport * as ns from './w'\nexport type { H } from './v'\nimport './side'\nexport * from './star'\n"),
        sf("src/star.ts", ""),
        sf("src/y.ts", "import { X } from './x'\n"),
        sf("src/z.ts", ""),
        sf("src/w.ts", ""),
        sf("src/v.ts", ""),
        sf("src/side.ts", ""),
        sf("pkg/__init__.py", ""),
        sf("pkg/p.py", "from pkg.q import a, b as c\nfrom pkg.r import *\nimport pkg.s\n"),
        sf("pkg/q.py", ""),
        sf("pkg/r.py", ""),
        sf("pkg/s.py", ""),
    ];
    let g = build(&files, &Cfg::default());
    let e = |a: &str, b: &str| g.edge(a, b).unwrap();
    assert_eq!((e("src/x.ts", "src/y.ts").kind, e("src/x.ts", "src/y.ts").symbols), (EdgeKind::TypeOnly, 2));
    let z = e("src/x.ts", "src/z.ts");
    assert_eq!((z.kind, z.symbols, z.names.clone()), (EdgeKind::Use, 2, vec!["D".to_string(), "E".to_string()]));
    assert!(e("src/x.ts", "src/w.ts").glob && e("src/x.ts", "src/w.ts").symbols == 20);
    assert_eq!(e("src/x.ts", "src/v.ts").kind, EdgeKind::TypeOnly);
    assert_eq!((e("src/x.ts", "src/side.ts").symbols, e("src/x.ts", "src/side.ts").names.clone()), (1, vec!["./side".to_string()]));
    let star = e("src/x.ts", "src/star.ts");
    assert_eq!((star.kind, star.glob, star.symbols, star.names.is_empty()), (EdgeKind::Use, true, 20, true));
    assert_eq!((e("pkg/p.py", "pkg/q.py").symbols, e("pkg/p.py", "pkg/q.py").names.clone()), (2, vec!["a".to_string(), "b".to_string()]));
    assert!(e("pkg/p.py", "pkg/r.py").glob);
    assert_eq!(e("pkg/p.py", "pkg/s.py").symbols, 1);
    // x <-> y is a cycle only through a type-only import: no runtime cycle to cut.
    let mut cfg = Cfg { min_cycle_size_to_cut: 2, ..Cfg::default() };
    let g = build(&files, &cfg);
    let c = g.file_cycles.iter().find(|c| c.members.contains(&"src/x.ts".to_string())).unwrap();
    let cuts = c.cuts.as_ref().unwrap();
    assert_eq!((cuts.type_only_edges, cuts.base, cuts.single.is_none(), cuts.no_single_break), (1, 1, true, false));
    assert_eq!(c.headline(), "2-file cycle in src: 1 type-only import ignored, largest runtime cycle 1; no runtime cycle");
    cfg.ignore_type_only_imports = false;
    let g = build(&files, &cfg);
    let c = g.file_cycles.iter().find(|c| c.members.contains(&"src/x.ts".to_string())).unwrap();
    let s = c.cuts.as_ref().unwrap().single.as_ref().unwrap();
    assert_eq!((s.edge.from.as_str(), s.largest_after), ("src/y.ts", 1));
}

fn cycle_files() -> Vec<SourceFile> {
    vec![
        sf("src/lib.rs", "mod a;\nmod b;\nmod c;\n"),
        sf("src/a.rs", "mod a2;\n"),
        sf("src/a/a2.rs", "use crate::b::B;\n"),
        sf("src/b/mod.rs", "use crate::a::A;\nuse crate::c::C;\n"),
        sf("src/c.rs", "use crate::a::A;\nuse crate::b::B2;\n"),
    ]
}

/// Four files each importing the other three: no single edge shrinks the cycle.
fn dense_files() -> Vec<SourceFile> {
    let names = ["a", "b", "c", "d"];
    let mut v = vec![sf("src/lib.rs", "mod a;\nmod b;\nmod c;\nmod d;\n")];
    for n in names {
        let body: String = names.iter().filter(|o| **o != n).map(|o| format!("use crate::{o}::{};\n", o.to_uppercase())).collect();
        v.push(sf(&format!("src/{n}.rs"), &body));
    }
    v
}

#[test]
fn cut_search_never_proposes_a_mod_edge_and_reports_hub_and_set() {
    let cfg = Cfg::default();
    let g = build(&cycle_files(), &cfg);
    assert_eq!(g.file_cycles.len(), 1);
    let c = &g.file_cycles[0];
    assert_eq!((c.members.len(), c.dir.as_str()), (4, "src"));
    let cuts = c.cuts.as_ref().unwrap();
    assert_eq!((cuts.internal_edges, cuts.mod_edges, cuts.base), (6, 1, 4));
    let s = cuts.single.as_ref().unwrap();
    assert_eq!((s.edge.from.as_str(), s.edge.to.as_str(), s.edge.kind, s.largest_after), ("src/a/a2.rs", "src/b/mod.rs", EdgeKind::Use, 2));
    let h = cuts.hub.as_ref().unwrap();
    assert_eq!((h.member.as_str(), h.imports, h.symbols, h.glob, h.largest_after), ("src/b/mod.rs", 2, 2, false, 1));
    assert!(!cuts.no_single_break);
    assert_eq!(cuts.cut_set.iter().map(|e| (e.edge.from.as_str(), e.edge.to.as_str(), e.largest_after)).collect::<Vec<_>>(), vec![("src/a/a2.rs", "src/b/mod.rs", 2)]);
    // `mod.rs` names nothing on its own: the short name carries its directory.
    assert_eq!(c.headline(), "4-file cycle in src: cheapest cut src/a/a2.rs -> src/b/mod.rs imports 1 symbol (B, line 1) -> largest remaining cycle 2; hub cut: drop b/mod.rs's 2 imports (2 symbols) -> 1");
    assert_eq!(c.cut_set_line().as_deref(), Some("cut set of 1 import dissolves it: src/a/a2.rs -> src/b/mod.rs (B)"));
    assert_eq!(c.cut_clause("src/b/mod.rs").as_deref(), Some("cut: a2.rs -> b/mod.rs, B"));
    assert!(c.cut_clause("src/a.rs").is_none());
    assert_eq!((short_name("src/dom/index.ts").as_str(), short_name("pkg/__init__.py").as_str(), short_name("index.ts").as_str(), short_name("src/x.rs").as_str(), short_name("mod.rs").as_str()), ("dom/index.ts", "pkg/__init__.py", "index.ts", "x.rs", "mod.rs"));
    // Without the hub, and with the hub not beating the single, it is absent.
    let cfg = Cfg { report_hub_cut: false, ..Cfg::default() };
    assert!(build(&cycle_files(), &cfg).file_cycles[0].cuts.as_ref().unwrap().hub.is_none());
}

#[test]
fn search_knobs_bound_the_edges_tried_and_price_globs() {
    // a2 -> b costs 2 now, so it sorts after the four 1-symbol edges; with one edge tried the
    // search stops at the first of those, which leaves the whole cycle.
    let mut files = cycle_files();
    files[2] = sf("src/a/a2.rs", "use crate::b::{B, B2};\n");
    let g = build(&files, &Cfg::default());
    let s = g.file_cycles[0].cuts.as_ref().unwrap().single.as_ref().unwrap();
    assert_eq!((s.edge.from.as_str(), s.edge.symbols, s.largest_after), ("src/a/a2.rs", 2, 2));
    let g = build(&files, &Cfg { max_edges_tried: 1, ..Cfg::default() });
    let s = g.file_cycles[0].cuts.as_ref().unwrap().single.as_ref().unwrap();
    assert_eq!((s.edge.from.as_str(), s.edge.to.as_str(), s.largest_after), ("src/b/mod.rs", "src/a.rs", 4));
    // A wildcard costs the knob, and a hub that drops one says `>= N symbols`.
    files[2] = sf("src/a/a2.rs", "use crate::b::B;\n");
    files[3] = sf("src/b/mod.rs", "use crate::a::*;\nuse crate::c::C;\n");
    let g = build(&files, &Cfg { glob_import_symbol_cost: 3, ..Cfg::default() });
    let e = g.edge("src/b/mod.rs", "src/a.rs").unwrap();
    assert_eq!((e.glob, e.symbols), (true, 3));
    let c = &g.file_cycles[0];
    let cuts = c.cuts.as_ref().unwrap();
    assert_eq!(cuts.single.as_ref().unwrap().edge.from.as_str(), "src/a/a2.rs");
    let h = cuts.hub.as_ref().unwrap();
    assert_eq!((h.member.as_str(), h.imports, h.glob, h.symbols, h.largest_after), ("src/b/mod.rs", 2, true, 4, 1));
    assert!(c.headline().ends_with("hub cut: drop b/mod.rs's 2 imports (>= 4 symbols) -> 1"), "{}", c.headline());
    // The share knob decides when a single cut is called no break at all.
    let g = build_with(&dense_files(), &Cfg::default(), 1.01);
    assert!(!g.file_cycles[0].cuts.as_ref().unwrap().no_single_break);
}

#[test]
fn dense_cycle_says_no_single_import_breaks_it_and_caps_the_cut_set() {
    let g = build(&dense_files(), &Cfg::default());
    let c = &g.file_cycles[0];
    let cuts = c.cuts.as_ref().unwrap();
    assert_eq!((cuts.internal_edges, cuts.mod_edges), (12, 0));
    let s = cuts.single.as_ref().unwrap();
    assert_eq!((s.edge.from.as_str(), s.edge.to.as_str(), s.largest_after), ("src/a.rs", "src/b.rs", 4));
    assert!(cuts.no_single_break);
    let h = cuts.hub.as_ref().unwrap();
    assert_eq!((h.member.as_str(), h.imports, h.symbols, h.largest_after), ("src/a.rs", 3, 3, 3));
    // The greedy set drops a.rs's three imports (largest 3 < min size 4); a cap of two hides it.
    assert_eq!(cuts.cut_set.iter().map(|e| (e.edge.to.as_str(), e.largest_after)).collect::<Vec<_>>(), vec![("src/b.rs", 4), ("src/c.rs", 4), ("src/d.rs", 3)]);
    assert!(cuts.cut_set.iter().all(|e| e.edge.kind != EdgeKind::Mod));
    assert!(c.headline().ends_with("-> largest remaining cycle 4; hub cut: drop a.rs's 3 imports (3 symbols) -> 3; no single import breaks this cycle"), "{}", c.headline());
    let cfg = Cfg { max_cut_set: 2, ..Cfg::default() };
    let g = build(&dense_files(), &cfg);
    assert!(g.file_cycles[0].cuts.as_ref().unwrap().cut_set.is_empty());
    assert!(g.file_cycles[0].cut_set_line().is_none());
}

#[test]
fn rust_cuts_can_be_switched_off_and_small_cycles_get_no_cuts() {
    let cfg = Cfg { cut_rust_cycles: false, ..Cfg::default() };
    let g = build(&cycle_files(), &cfg);
    assert!(g.file_cycles[0].cuts.is_none());
    assert_eq!(g.file_cycles[0].headline(), "4-file cycle in src");
    assert!(g.file_cycles[0].cut_set_line().is_none() && g.file_cycles[0].cut_clause("src/b/mod.rs").is_none());
    let cfg = Cfg { min_cycle_size_to_cut: 5, ..Cfg::default() };
    assert!(build(&cycle_files(), &cfg).file_cycles[0].cuts.is_none());
}

#[test]
fn common_dir_is_the_deepest_shared_directory() {
    assert_eq!(common_dir(&vec!["src/a.rs".to_string(), "src/cmd/b.rs".to_string()]), "src");
    assert_eq!(common_dir(&vec!["crates/x/src/a.rs".to_string(), "crates/x/src/b/c.rs".to_string()]), "crates/x/src");
    assert_eq!(common_dir(&vec!["a.rs".to_string(), "src/b.rs".to_string()]), ".");
}

#[test]
fn a_type_checking_guard_makes_an_import_type_only() {
    let files = vec![
        sf("pkg/__init__.py", ""),
        sf("pkg/a.py", "from . import b\n"),
        sf("pkg/b.py", "from typing import TYPE_CHECKING\nif TYPE_CHECKING:\n    from . import a\n"),
    ];
    let cfg = Cfg { min_cycle_size_to_cut: 2, ..Cfg::default() };
    let g = build(&files, &cfg);
    let cuts = g.file_cycles[0].cuts.as_ref().unwrap();
    assert_eq!((cuts.type_only_edges, cuts.base), (1, 1));
    let cfg = Cfg { min_cycle_size_to_cut: 2, ignore_type_only_imports: false, ..Cfg::default() };
    let g = build(&files, &cfg);
    assert_eq!(g.file_cycles[0].cuts.as_ref().unwrap().base, 2);
}

#[test]
fn python_roots_say_where_absolute_imports_start() {
    let files = vec![sf("lib/engine/a.py", ""), sf("tools/run.py", "import engine.a\n")];
    assert_eq!(file(&build(&files, &Cfg::default()), "tools/run.py").fan_out, 0);
    let cfg = Cfg { py_roots: vec!["lib".to_string()], ..Cfg::default() };
    assert_eq!(file(&build(&files, &cfg), "tools/run.py").fan_out, 1);
}

#[test]
fn namespace_packages_are_imported_by_their_submodules() {
    let files = vec![
        sf("app/main.py", "from ns import mod\n"),
        sf("app/ns/mod.py", ""),
        sf("app/ns/deep/leaf.py", ""),
        sf("app/other.py", "from ns import missing\nimport ns.deep.leaf\nfrom .ns.deep import leaf\n"),
    ];
    let g = build(&files, &Cfg::default());
    assert!(g.edge("app/main.py", "app/ns/mod.py").is_some());
    assert_eq!(file(&g, "app/main.py").fan_out, 1);
    assert!(g.edge("app/other.py", "app/ns/deep/leaf.py").is_some());
    assert_eq!((file(&g, "app/other.py").fan_out, file(&g, "app/other.py").external), (1, 1));
}
