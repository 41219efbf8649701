use scry::deps::graph::cycles;
use scry::docs::{read_json, read_toml};
use scry::globs::any_hit;
use scry::lang::Language;
use scry::lines::union_lines;
use scry::order::sort_texts;
use scry::paths::{join_path, norm_path};
use scry::patterns::Pattern;
use scry::sorting::sort_rows;
use scry::text::{fields, lines, split, trim, words};
use scry::tree::SyntaxTree;
use scry::units::unit_nodes;

#[test]
fn rows_sort_by_their_first_difference() {
    let v = vec![(2, 0, 0, 0, 0, 0), (1, 5, 0, 0, 0, 0), (1, -5, 9, 0, 0, 0), (1, -5, 9, 0, 0, -1)];
    assert_eq!(sort_rows(&v), vec![(1, -5, 9, 0, 0, -1), (1, -5, 9, 0, 0, 0), (1, 5, 0, 0, 0, 0), (2, 0, 0, 0, 0, 0)]);
    assert!(sort_rows(&vec![]).is_empty());
    let long: Vec<(i128, i128, i128, i128, i128, i128)> = (0..1000).map(|i| ((i * 7919) % 1009, i, 0, 0, 0, 0)).collect();
    let mut want = long.clone();
    want.sort();
    assert_eq!(sort_rows(&long), want);
}

#[test]
fn texts_split_trim_and_sort() {
    assert_eq!(fields("  a\tb  c\n"), vec!["a", "b", "c"]);
    assert_eq!(words("let x_1 = y.z;"), vec!["let", "x_1", "y", "z"]);
    assert_eq!(lines("a\r\nb\n\nc"), vec!["a", "b", "", "c"]);
    assert_eq!(split("a.b:c", ".:"), vec!["a", "b", "c"]);
    assert_eq!(trim("\u{a0} x \n"), "x");
    assert_eq!(sort_texts(&vec!["b".into(), "a".into(), "B".into()]), vec!["B", "a", "b"]);
}

#[test]
fn lines_of_overlapping_ranges_count_once() {
    assert_eq!(union_lines(&vec![(5, 7), (1, 3), (3, 5)]), 7);
    assert_eq!(union_lines(&vec![(4, 3)]), 0);
    assert_eq!(union_lines(&vec![]), 0);
}

#[test]
fn paths_lose_dots() {
    assert_eq!(norm_path("a/./b/../c"), "a/c");
    assert_eq!(join_path("a/b", "../c"), "a/c");
}

#[test]
fn patterns_match_and_capture() {
    let p = Pattern::new("^(\\w+)Config$", false);
    assert!(p.hits("AppConfig") && !p.hits("appconfig"));
    assert_eq!(p.group("AppConfig", 1), Some(Some("App".to_string())));
    assert_eq!(p.group("nothing", 1), None);
    assert!(Pattern::new("config$", true).hits("AppConfig"));
    // An expression that does not compile matches nothing.
    assert!(!Pattern::new("(", false).hits("("));
}

#[test]
fn cycles_are_the_strong_components_of_more_than_one() {
    let c = cycles(5, &vec![(0, 1), (1, 2), (2, 0), (2, 3), (3, 4)]);
    assert_eq!(c.len(), 1);
    let mut m = c[0].clone();
    m.sort();
    assert_eq!(m, vec![0, 1, 2]);
    assert!(cycles(2, &vec![(0, 1)]).is_empty());
}

#[test]
fn documents_read_as_trees() {
    let t = read_toml("[a]\nb = [\"x\", \"y\"]\n").unwrap();
    let a = t.get(t.root(), "a");
    assert_eq!(t.strings(t.get(a, "b")), vec!["x", "y"]);
    assert!(read_toml("[a").is_none());
    let j = read_json("{\"a\": {\"b\": \"x\", \"c\": true}}").unwrap();
    let a = j.get(j.root(), "a");
    assert_eq!(j.string(j.get(a, "b")).as_deref(), Some("x"));
    assert!(j.flag(j.get(a, "c")));
    assert!(read_json("{").is_none());
}

#[test]
fn a_parsed_tree_is_in_pre_order() {
    let t = SyntaxTree::parse(Language::Rust, "fn f(a: u8) -> u8 { a }\n").unwrap();
    assert_eq!(t.kind(0), "source_file");
    for (i, n) in t.nodes.iter().enumerate() {
        assert!(n.parent.is_none_or(|p| p < i));
        assert!(i < n.after && n.after <= t.nodes.len());
        assert!(n.children.iter().all(|c| t.nodes[*c].parent == Some(i)));
    }
    let f = t.nodes.iter().position(|n| n.kind == "function_item").unwrap();
    assert_eq!(t.child(f, "name").map(|n| t.text(n)), Some("f"));
}

#[test]
fn units_are_named_by_their_owner() {
    let names = |lang: Language, src: &str| -> Vec<String> {
        let t = SyntaxTree::parse(lang, src).unwrap();
        unit_nodes(&t, lang).into_iter().map(|u| u.name).collect()
    };
    assert_eq!(names(Language::Rust, "impl<T> Repo<T> { fn open() { fn inner() {} } }\nfn top() { let c = |x| x; }\n"), vec!["Repo.open", "inner", "top"]);
    assert_eq!(names(Language::Python, "class C:\n    def m(self):\n        pass\ndef f():\n    return lambda x: x\n"), vec!["C.m", "f"]);
    assert_eq!(names(Language::TypeScript, "class K { m() {} }\nconst g = (a) => a;\nrun(function () {});\n"), vec!["K.m", "g", "(anonymous)"]);
}

#[test]
fn nested_documents_keep_their_order_and_depth() {
    let t = read_toml("a = [[\"x\", true], { k = \"y\" }, 3]\nz = \"w\"\n").unwrap();
    let kinds: Vec<(&str, &str, &str)> = t.nodes.iter().map(|n| (n.field.as_str(), n.kind.as_str(), n.text.as_str())).collect();
    assert_eq!(
        kinds,
        vec![
            ("", "table", ""),
            ("a", "array", ""),
            ("", "array", ""),
            ("", "string", "x"),
            ("", "boolean", "true"),
            ("", "table", ""),
            ("k", "string", "y"),
            ("", "other", ""),
            ("z", "string", "w"),
        ]
    );
    assert_eq!(t.all_strings(1), vec!["x", "y"]);
    assert_eq!(t.nodes[8].parent, Some(0));
    let j = read_json("[{\"a\": [false, null]}, \"s\"]").unwrap();
    let kinds: Vec<(&str, &str)> = j.nodes.iter().map(|n| (n.kind.as_str(), n.text.as_str())).collect();
    assert_eq!(kinds, vec![("array", ""), ("table", ""), ("array", ""), ("boolean", "false"), ("other", ""), ("string", "s")]);
}

#[test]
fn a_glob_set_matches_where_an_accepted_glob_does() {
    let globs = |list: &[&str]| -> Vec<String> { list.iter().map(|g| g.to_string()).collect() };
    let set = globs(&["benches/**", "[", "*.gen.rs"]);
    assert!(any_hit(&set, "benches/a/b.rs"));
    assert!(any_hit(&set, "src/x.gen.rs"));
    assert!(!any_hit(&set, "src/x.rs"));
    assert!(!any_hit(&set, "["));
    assert!(!any_hit(&globs(&["["]), "a"));
    assert!(!any_hit(&globs(&[]), "a"));
}

#[test]
fn siblings_of_a_parsed_tree_follow_one_another() {
    let src = "// one\nuse a::b;\nfn f(x: u8) -> u8 {\n    // two\n    x + 1\n}\n";
    let t = SyntaxTree::parse(Language::Rust, src).unwrap();
    for n in &t.nodes {
        assert!(n.start <= n.end && n.end <= src.len());
        assert_eq!(n.text, src[n.start..n.end]);
        for c in n.children.windows(2) {
            assert!(t.nodes[c[0]].end <= t.nodes[c[1]].start);
        }
    }
    let broken = SyntaxTree::parse(Language::Rust, "fn f( {\n  let = ;\n").unwrap();
    assert!(broken.nodes.iter().enumerate().all(|(i, n)| n.children.windows(2).all(|c| broken.nodes[c[0]].end <= broken.nodes[c[1]].start && i < c[0])));
    let none = SyntaxTree::parse(Language::Python, "").unwrap();
    assert_eq!((none.nodes.len(), none.kind(0)), (1, "module"));
}
