use scry::clones::classify::contexts;
use scry::clones::detect::{detect, CloneKind};
use scry::clones::tables::Shares;
use scry::clones::tokens::tokenize;
use scry::clones::winnow::winnow;
use scry::config::{Clones, Declared, Deps, Tests};
use scry::declared::side::index_tests;
use scry::deps::assemble::build;
use scry::deps::extract::EdgeKind;
use scry::discover::{FileKind, SourceFile};
use scry::lang::Language;
use scry::tree::SyntaxTree;

const SHARES: Shares = Shares { child: 900_000, shape: 600_000 };

fn source(path: &str, content: &str) -> SourceFile {
    let lang = Language::from_path(path).unwrap();
    SourceFile { path: path.into(), lang, kind: FileKind::Source, lines: content.lines().count(), bytes: content.len(), content: content.into() }
}

#[test]
fn a_run_that_two_files_share_is_found() {
    // 16 tokens a line pair: fifteen pairs are well over k + w - 1.
    let shared: String = (0..15).map(|i| format!("    if a{i} > b{i}:\n        c{i} = d{i}.call(a{i}, b{i})\n")).collect();
    let a = source("a.py", &format!("def f():\n    x = [1]\n{shared}    return x\n"));
    let b = source("b.py", &format!("def g(y):\n    while y:\n        y -= 2\n{shared}    yield y\n"));
    let cfg = Clones::default();
    let r = detect(&vec![a, b], &cfg, &Tests::default(), SHARES);
    // The lines repeat, so each file also matches itself.
    let p = r.pairs.iter().find(|p| p.a.file != p.b.file).unwrap();
    assert!(p.tokens >= cfg.k + cfg.w - 1);
    assert!(p.a.file == "a.py" && p.a.start_line <= 3 && p.a.end_line >= 32, "{}-{}", p.a.start_line, p.a.end_line);
    assert!(p.b.file == "b.py" && p.b.start_line <= 4 && p.b.end_line >= 33, "{}-{}", p.b.start_line, p.b.end_line);
}

#[test]
fn imports_comments_and_tests_hold_no_tokens() {
    let tests = Tests::default();
    let ts = "import { a } from './a';\nexport * from './b';\n// note\n";
    assert!(tokenize(&source("x.ts", ts), &tests).list.is_empty());
    let py = "from . import a\nimport b.c\n# note\n";
    assert!(tokenize(&source("x.py", py), &tests).list.is_empty());
    let rs = "use a::b;\n#[cfg(test)]\nmod tests { fn t() {} }\n";
    let t = tokenize(&source("x.rs", rs), &tests);
    assert!(t.list.iter().all(|k| k.line < 3));
    assert!(!tokenize(&source("x.ts", "export const a = 1;\n"), &tests).list.is_empty());
}

#[test]
fn renamed_copies_have_the_same_hashes() {
    let tests = Tests::default();
    let a = tokenize(&source("a.rs", "fn add(x: u8) -> u8 { x + 1 }\n"), &tests);
    let b = tokenize(&source("b.rs", "fn increase(value: u8) -> u8 { value + 20 }\n"), &tests);
    assert_eq!(a.hashes, b.hashes);
    let c = tokenize(&source("c.rs", "fn add(x: u8) -> u8 { x - 1 }\n"), &tests);
    assert_ne!(a.hashes, c.hashes);
}

#[test]
fn tokens_stand_in_a_signature_a_configuration_or_logic() {
    let t = tokenize(&source("a.py", "LIMITS = {'a': 1, 'b': 2}\ndef f(x, y):\n    return g(x)\n"), &Tests::default());
    let kinds = contexts(&t, Language::Python);
    let on = |line: usize| -> Vec<CloneKind> { t.list.iter().zip(&kinds).filter(|k| k.0.line == line).map(|k| *k.1).collect() };
    assert!(!on(1).is_empty() && on(1).iter().all(|k| *k == CloneKind::Configuration));
    assert!(!on(2).is_empty() && on(2).iter().all(|k| *k == CloneKind::Signature));
    assert!(!on(3).is_empty() && on(3).iter().all(|k| *k == CloneKind::Logic));
}

#[test]
fn files_that_two_files_import_are_listed() {
    let files = vec![
        source("src/a.ts", "import './c'\nimport './d'\n"),
        source("src/b.ts", "import './d'\nimport './c'\nimport './e'\n"),
        source("src/c.ts", ""),
        source("src/d.ts", ""),
        source("src/e.ts", ""),
    ];
    let g = build(&files, &Deps::default(), &vec![0; files.len() + 1]);
    assert_eq!(g.shared_imports("src/a.ts", "src/b.ts"), vec!["src/c.ts", "src/d.ts"]);
    assert!(g.shared_imports("src/a.ts", "src/c.ts").is_empty());
    assert_eq!(g.edge("src/a.ts", "src/c.ts").map(|e| e.kind), Some(EdgeKind::Use));
    assert_eq!(files[0].module_dir(), "src");
}

#[test]
fn a_test_file_is_test_context_as_a_whole() {
    let f = SourceFile { kind: FileKind::Test, ..source("tests/t.rs", "fn t() { regex::escape(\"\"); }\n") };
    let tree = SyntaxTree::parse(f.lang, &f.content);
    let sides = index_tests(&vec![(&f, tree)], &Declared::default());
    assert_eq!(sides.len(), 1);
    let n = sides[0].crate_refs_of("regex");
    assert_eq!((n.prod, n.test), (0, 1));
}

#[test]
fn pairs_stand_longest_first_and_none_is_too_short() {
    let body = |n: usize, v: &str| -> String { (0..n).map(|i| format!("    if a{i} > {v}{i}:\n        c{i} = d{i}.call(a{i}, {v}{i})\n")).collect() };
    let whole = |name: &str, n: usize| format!("def {name}(q):\n{}    return q\n", body(n, name));
    let other = |name: &str, n: usize| {
        let rows: String = (0..n).map(|i| format!("    while x{i}:\n        y{i}.append([x{i}, {i}])\n        del z{i}\n")).collect();
        format!("def {name}():\n{rows}    yield 1\n")
    };
    let files = vec![
        source("b.py", &whole("f", 14)),
        source("a.py", &whole("g", 14)),
        source("d.py", &other("h", 20)),
        source("c.py", &other("k", 20)),
    ];
    let cfg = Clones::default();
    let r = detect(&files, &cfg, &Tests::default(), SHARES);
    assert!(r.pairs.len() >= 2, "{} pairs", r.pairs.len());
    let key = |i: usize| {
        let p = &r.pairs[i];
        (usize::MAX - p.tokens, p.a.file.clone(), p.a.start_line, p.b.file.clone(), p.b.start_line)
    };
    for i in 0..r.pairs.len() {
        let p = &r.pairs[i];
        assert!(p.tokens >= cfg.min_tokens);
        assert_eq!(p.kind == CloneKind::Table, p.container_kind.is_some());
        assert_eq!(p.kind == CloneKind::Table, p.entry_count.is_some());
        assert!(i == 0 || key(i - 1) <= key(i));
    }
    let again = detect(&files, &cfg, &Tests::default(), SHARES);
    assert_eq!(again.pairs.len(), r.pairs.len());
    assert!((0..r.pairs.len()).all(|i| again.pairs[i].tokens == r.pairs[i].tokens && again.pairs[i].a.start_line == r.pairs[i].a.start_line));
}

#[test]
fn a_path_is_reported_once() {
    let shared: String = (0..15).map(|i| format!("    if a{i} > b{i}:\n        c{i} = d{i}.call(a{i}, b{i})\n")).collect();
    let text = format!("def f():\n{shared}");
    let r = detect(&vec![source("a.py", &text), source("b.py", &text), source("a.py", &text)], &Clones::default(), &Tests::default(), SHARES);
    let mut paths: Vec<&str> = r.files.iter().map(|f| f.0.as_str()).collect();
    paths.sort();
    assert_eq!(paths, vec!["a.py", "b.py"]);
    let g = build(&vec![source("m/a.py", "import m.b\n"), source("m/b.py", ""), source("m/a.py", "import m.b\nimport os\n")], &Deps::default(), &vec![0; 4]);
    assert_eq!(g.files.iter().map(|f| f.0.as_str()).collect::<Vec<_>>(), vec!["m/a.py", "m/b.py"]);
    let (a, b) = (g.files[0].1, g.files[1].1);
    assert_eq!((a.fan_out, a.external, b.fan_in), (1, 1, 2));
    assert_eq!(g.edges.len(), 1);
}

#[test]
fn fingerprints_rise_through_the_tokens() {
    let hashes: Vec<u64> = (0u64..200).map(|i| (i * 7919) % 13).collect();
    let prints = winnow(&hashes, 5, 4);
    assert!(prints.len() > 10);
    assert!(prints.windows(2).all(|p| p[0].0 < p[1].0));
    let flat = winnow(&vec![7; 40], 5, 4);
    assert!(flat.windows(2).all(|p| p[0].0 < p[1].0));
}
