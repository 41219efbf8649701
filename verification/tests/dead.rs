use scry::config::{Dead as Cfg, DeadMode};
use scry::dead::analyze::{analyze, check_symbols, DeadReport, FileDead};
use scry::dead::index::{index_all, index_tests, SymbolIndex};
use scry::dead::modes::{manifest_dirs, manifest_name, read_manifest, Beside, Entry, Family, Modes};
use scry::dead::render::{render, totals_line};
use scry::dead::report::{Category, SymbolReport};
use scry::discover::{FileKind, SourceFile};
use scry::lang::Language;
use scry::names::RefCount;
use scry::tree::SyntaxTree;

fn file(path: &str, kind: FileKind, content: &str) -> SourceFile {
    let lang = Language::from_path(path).unwrap();
    SourceFile { path: path.into(), lang, kind, lines: content.lines().count(), bytes: content.len(), content: content.into() }
}

fn src(path: &str, content: &str) -> SourceFile {
    file(path, FileKind::Source, content)
}

/// For each value the share of the others below it.
fn percentiles(v: &[f64]) -> Vec<f64> {
    v.iter().map(|x| if v.len() < 2 { 1.0 } else { v.iter().filter(|y| *y < x).count() as f64 / (v.len() - 1) as f64 }).collect()
}

fn share(fd: &FileDead) -> f64 {
    if fd.pub_items == 0 { 0.0 } else { fd.overexported_count as f64 / fd.pub_items as f64 }
}

/// The modes with a Cargo manifest at the root, or none anywhere.
fn modes(index: &SymbolIndex, cargo: Option<(&str, Beside)>, cfg: &Cfg) -> Modes {
    let entries = manifest_dirs(index, cfg)
        .into_iter()
        .map(|(dir, family)| {
            let manifest = match (cargo, dir.as_str(), family) {
                (Some((text, beside)), "", Family::Rust) => read_manifest(text, "", family, beside, cfg),
                _ => None,
            };
            Entry { dir, family, manifest }
        })
        .collect();
    Modes::new(entries, cfg)
}

fn run_at(files: &Vec<SourceFile>, cargo: Option<(&str, Beside)>, cfg: &Cfg) -> DeadReport {
    let index = index_all(files, cfg);
    let modes = modes(&index, cargo, cfg);
    let st = check_symbols(&index, &modes, cfg);
    let shares: Vec<f64> = st.files.iter().map(|f| share(&f.1)).collect();
    let ranks = percentiles(&shares);
    let in_file = shares.iter().zip(&ranks).map(|(s, r)| if *s >= 0.5 { Some((format!("{:.0}", s * 100.0), (r * 100.0).round() as usize)) } else { None }).collect();
    analyze(&index, &modes, st, &in_file, cfg)
}

/// No manifest: `auto` resolves to application.
fn run(files: &Vec<SourceFile>, cfg: &Cfg) -> DeadReport {
    run_at(files, None, cfg)
}

fn fd<'a>(r: &'a DeadReport, path: &str) -> &'a FileDead {
    &r.files.iter().find(|f| f.0 == path).unwrap().1
}

fn cat(r: &DeadReport, path: &str, name: &str) -> Option<Category> {
    r.files.iter().find(|f| f.0 == path).and_then(|f| f.1.symbols.iter().find(|s| s.name == name)).map(|s| s.category)
}

fn sym<'a>(r: &'a DeadReport, path: &str, name: &str) -> &'a SymbolReport {
    fd(r, path).symbols.iter().find(|s| s.name == name).unwrap_or_else(|| panic!("{path} {name}"))
}

#[test]
fn own_name_is_not_a_ref_and_the_index_covers_source_and_test_files_only() {
    let files = vec![
        src("src/a.rs", "pub fn lonely_fn() {}\npub fn used_fn() {}\n"),
        file("tests/t.rs", FileKind::Test, "#[test] fn t() { used_fn(); }\n"),
        file("fixtures/d.rs", FileKind::Data, "fn x() { lonely_fn(); }\n"),
    ];
    let idx = index_all(&files, &Cfg::default());
    assert_eq!(idx.files.iter().map(|f| f.path.as_str()).collect::<Vec<_>>(), vec!["src/a.rs", "tests/t.rs"]);
    assert_eq!(idx.refs_in("lonely_fn", "src/a.rs"), RefCount { prod: 0, test: 0 });
    assert_eq!(idx.external_refs("used_fn", "src/a.rs"), RefCount { prod: 0, test: 1 });
    assert_eq!(idx.samename("used_fn"), 1);
    assert!(idx.file("tests/t.rs").unwrap().test_context);
    assert_eq!(idx.definitions("lonely_fn").iter().map(|d| d.display.as_str()).collect::<Vec<_>>(), vec!["pub fn lonely_fn"]);
    let mut cfg = Cfg::default();
    cfg.symbols.min_lines = 1;
    let r = run(&files, &cfg);
    assert_eq!(cat(&r, "src/a.rs", "lonely_fn"), Some(Category::Dead));
    // One test ref is under the floor of 2: neither dead nor test-only.
    assert_eq!(cat(&r, "src/a.rs", "used_fn"), Some(Category::Reachable));
    assert_eq!(fd(&r, "src/a.rs").reasons, vec!["pub fn lonely_fn (a.rs 1) is called nowhere in 2 files"]);
    assert_eq!((r.totals.pub_items, r.totals.dead, r.totals.exempt_items), (2, 1, 0));
}

#[test]
fn token_tree_refs_follow_their_context_and_doc_mentions_never_reach() {
    let a = "\
/// Calls `helper_one` (mentioned twice: helper_one).
pub fn helper_one() {
}
pub fn helper_two() {
}
pub fn helper_three() {
}
fn caller() { m!(helper_two); }
#[cfg(test)]
mod tests {
    #[test] fn t() { assert!(m!(helper_three)); assert!(m!(helper_three)); }
}
";
    let r = run(&vec![src("src/a.rs", a)], &Cfg::default());
    let one = sym(&r, "src/a.rs", "helper_one");
    assert_eq!((one.category, one.doc_mentions), (Category::Dead, 2));
    assert_eq!(cat(&r, "src/a.rs", "helper_two"), Some(Category::Overexported));
    let three = sym(&r, "src/a.rs", "helper_three");
    assert_eq!((three.category, three.own_test_refs, three.own_prod_refs), (Category::TestOnly, 2, 0));
    let reasons = &fd(&r, "src/a.rs").reasons;
    assert_eq!(reasons[0], "pub fn helper_one (a.rs 2-3) is called nowhere in 1 files (2 doc mentions)");
    assert_eq!(reasons[1], "pub fn helper_three (a.rs 6-7) has no production caller: 2 uses, all in its own #[cfg(test)] tests; move under #[cfg(test)] or delete");
}

#[test]
fn test_context_is_test_files_extra_globs_cfg_test_and_test_fns() {
    let files = vec![
        src("src/a.rs", "pub fn seam_a() {}\npub fn seam_b() {}\npub fn seam_c() {}\npub fn seam_d() {}\npub fn live_fn() {}\n#[test]\nfn bare() { seam_c(); seam_c(); }\n"),
        file("tests/t.rs", FileKind::Test, "fn t() { seam_a(); seam_a(); }\n"),
        src("src/testutil.rs", "pub fn util() { seam_b(); seam_b(); }\n"),
        src("benches/b.rs", "fn main() { seam_d(); seam_d(); }\n"),
        src("src/c.rs", "fn go() { live_fn(); }\n"),
    ];
    let mut cfg = Cfg::default();
    cfg.symbols.min_lines = 1;
    let r = run(&files, &cfg);
    for n in ["seam_a", "seam_b", "seam_c", "seam_d"] {
        assert_eq!(cat(&r, "src/a.rs", n), Some(Category::TestOnly), "{n}");
    }
    // testutil.rs is test context: its own pub fn is never a candidate.
    assert!(!r.files.iter().any(|f| f.0 == "src/testutil.rs"));
    assert_eq!(sym(&r, "src/a.rs", "seam_a").test_files, vec!["tests/t.rs"]);
    let reasons = &fd(&r, "src/a.rs").reasons;
    assert_eq!(reasons[0], "pub fn seam_a (a.rs 1) has no production caller: 2 uses, all in tests/t.rs; move into the test crate or delete", "{reasons:?}");
    assert_eq!(reasons[2], "pub fn seam_c (a.rs 3) has no production caller: 2 uses, all in its own #[cfg(test)] tests; move under #[cfg(test)] or delete");
    assert_eq!(reasons.len(), 4);
    // Every exported symbol test-only: one rollup line, no per-symbol lines.
    let two = vec![src("src/a.rs", "pub fn seam_a() {}\npub fn seam_b() {}\n"), file("tests/t.rs", FileKind::Test, "fn t() { seam_a(); seam_a(); seam_b(); seam_b(); }\n")];
    let r = run(&two, &cfg);
    assert_eq!(fd(&r, "src/a.rs").reasons, vec!["all 2 exported symbols in a.rs are test-only (lines 1-2), kept alive by tests/t.rs"]);
    // Benches as production: seam_d is used.
    cfg.test_only.treat_benches_as_prod = true;
    let r = run(&files, &cfg);
    assert_eq!(cat(&r, "src/a.rs", "seam_d"), Some(Category::Reachable));
}

#[test]
fn exempt_items_still_contribute_refs() {
    let a = "\
pub trait Render { fn render(&self); }
pub struct Widget_x;
impl Render for Widget_x { fn render(&self) { hidden_fn(); } }
#[test]
pub fn test_it() {
}
#[tokio::test]
pub async fn async_it() {
}
pub fn hidden_fn() {
}
pub fn _private_ish() {
}
pub fn one_liner() {}
pub mod inner_mod {
}
";
    let files = vec![src("src/a.rs", a), src("src/main.rs", "pub fn main_only() {\n}\nfn main() { main_only(); Widget_x; }\n")];
    let r = run(&files, &Cfg::default());
    let names: Vec<&str> = fd(&r, "src/a.rs").symbols.iter().map(|s| s.name.as_str()).collect();
    assert_eq!(names, vec!["hidden_fn"], "{names:?}"); // Render and Widget_x are one-liners
    // The trait-impl method's body references hidden_fn in production.
    assert_eq!(cat(&r, "src/a.rs", "hidden_fn"), Some(Category::Overexported));
    assert!(!r.files.iter().any(|f| f.0 == "src/main.rs"));
    // Render, Widget_x, async_it, _private_ish, one_liner, inner_mod, main_only (test_it is in a #[test] region).
    assert_eq!(r.totals.exempt_items, 7, "{:?}", r.totals);
    let mut one = Cfg::default();
    one.symbols.min_lines = 1;
    let r = run(&files, &one);
    assert_eq!(cat(&r, "src/a.rs", "Widget_x"), Some(Category::Reachable));
    assert_eq!(cat(&r, "src/a.rs", "Render"), Some(Category::Overexported));
    let idx = index_all(&files, &Cfg::default());
    let defs: Vec<(&str, Option<&str>)> = idx.definitions("render").iter().map(|d| (d.display.as_str(), d.exempt.as_deref())).collect();
    assert_eq!(defs, vec![("fn Render::render", None), ("fn Widget_x::render", Some("trait impl"))]);
    assert_eq!(idx.definitions("async_it")[0].exempt.as_deref(), Some("#[tokio::test]"));
    let mut cfg = Cfg::default();
    cfg.symbols.kinds = vec!["mod".into()];
    let r = run(&files, &cfg);
    assert_eq!(fd(&r, "src/a.rs").symbols.iter().map(|s| s.name.as_str()).collect::<Vec<_>>(), vec!["inner_mod"]);
}

#[test]
fn mode_auto_reads_the_manifest_and_library_checks_only_restricted_visibility() {
    let cargo = "[package]\nname = \"x\"\n[lib]\npath = \"src/lib.rs\"\n";
    let lib_only = Beside { main_file: false, bin_dir: false, lib_file: false };
    let a = "pub fn api_fn() {\n}\npub(crate) fn crate_fn() {\n}\n";
    let files = vec![src("src/a.rs", a), src("src/lib.rs", "pub mod a;\npub fn root_fn() {\n}\n")];
    let cfg = Cfg::default();
    let r = run_at(&files, Some((cargo, lib_only)), &cfg);
    assert_eq!(r.modes, vec![".: library (Cargo.toml has [lib] and no [[bin]])"]);
    assert_eq!(fd(&r, "src/a.rs").symbols.iter().map(|s| s.name.as_str()).collect::<Vec<_>>(), vec!["crate_fn"]);
    assert_eq!(cat(&r, "src/a.rs", "crate_fn"), Some(Category::Dead));
    assert!(!r.files.iter().any(|f| f.0 == "src/lib.rs"), "api roots are exempt in library mode");
    // A [[bin]] makes it an application: plain pub is checked, lib.rs too, main.rs never.
    let cargo = "[package]\nname = \"x\"\n[lib]\npath = \"src/lib.rs\"\n[[bin]]\nname = \"x\"\npath = \"src/main.rs\"\n";
    let r = run_at(&files, Some((cargo, lib_only)), &cfg);
    assert_eq!(r.modes, vec![".: application (Cargo.toml has [[bin]])"]);
    assert_eq!(cat(&r, "src/a.rs", "api_fn"), Some(Category::Dead));
    assert_eq!(cat(&r, "src/lib.rs", "root_fn"), Some(Category::Dead));
    // The knob overrides the manifest.
    let mut lib = Cfg::default();
    lib.symbols.mode = DeadMode::Library;
    let r = run_at(&files, Some((cargo, lib_only)), &lib);
    assert_eq!(cat(&r, "src/a.rs", "api_fn"), None);
}

#[test]
fn duplicated_names_merge_refs_and_never_create_a_hit() {
    let files = vec![
        src("src/a.rs", "pub fn parse_it() {\n}\n"),
        src("src/b.rs", "pub fn parse_it() {\n}\nfn go() { parse_it(); }\n"),
        src("src/c.rs", "pub fn both_dead() {\n}\n"),
        src("src/d.rs", "pub fn both_dead() {\n}\n"),
    ];
    let r = run(&files, &Cfg::default());
    // a.rs's parse_it is reachable through b.rs's call (the merge hides it).
    assert_eq!(cat(&r, "src/a.rs", "parse_it"), Some(Category::Reachable));
    assert_eq!(cat(&r, "src/b.rs", "parse_it"), Some(Category::Overexported));
    assert_eq!(cat(&r, "src/c.rs", "both_dead"), Some(Category::Ambiguous));
    assert_eq!(fd(&r, "src/c.rs").reasons, vec!["pub fn both_dead (c.rs 1-2) shares its name with 1 other definitions; reachability not assessed"]);
    assert_eq!((r.totals.dead, r.totals.ambiguous), (0, 2));
}

#[test]
fn strings_reference_symbols_by_segment_and_format_capture() {
    let a = "\
pub const BIN_ENV: &str =
    \"KANSPEC_BIN\";
pub const KEY_ONE: &str =
    \"k\";
pub fn install_it() {
}
pub fn by_path() {
}
pub fn by_whole() {
}
pub fn by_colon() {
}
fn go() {
    let _ = format!(\"{BIN_ENV} {{not_a_ref}} {KEY_ONE:?}\");
    call(\"hooks.install_it\");
    call(\"by_whole\");
    call(\"pkg.mod:by_colon\");
    call(\"by path with spaces\");
}
";
    let r = run(&vec![src("src/a.rs", a)], &Cfg::default());
    for n in ["BIN_ENV", "KEY_ONE", "install_it", "by_whole", "by_colon"] {
        assert_eq!(cat(&r, "src/a.rs", n), Some(Category::Overexported), "{n}");
    }
    assert_eq!(cat(&r, "src/a.rs", "by_path"), Some(Category::Dead));
    let mut off = Cfg::default();
    off.symbols.string_refs = false;
    let r = run(&vec![src("src/a.rs", a)], &off);
    assert_eq!(cat(&r, "src/a.rs", "BIN_ENV"), Some(Category::Dead));
    assert_eq!(cat(&r, "src/a.rs", "install_it"), Some(Category::Dead));
}

#[test]
fn typescript_and_python_are_off_by_default_and_python_never_gets_the_in_file_line() {
    let files = vec![
        src("src/a.ts", "import { x } from './x';\nexport function dead_ts() {\n}\nexport function used_ts() {\n}\nfunction go() { used_ts(); }\ndescribe('s', () => { it('t', () => { dead_ts(); dead_ts(); }); });\n"),
        src("pkg/m.py", "def dead_py():\n    pass\ndef a_py():\n    pass\ndef b_py():\n    pass\ndef c_py():\n    pass\ndef d_py():\n    pass\ndef go():\n    a_py(); b_py(); c_py(); d_py()\ndef test_x():\n    dead_py(); dead_py()\n"),
    ];
    let r = run(&files, &Cfg::default());
    assert!(r.files.is_empty());
    assert_eq!(r.notes.len(), 2, "{:?}", r.notes);
    assert!(r.notes[0].starts_with("typescript: 2 exported symbols not checked; run knip"), "{:?}", r.notes);
    // Application mode with the languages on: TS test blocks and Python test_ fns are test context.
    let mut cfg = Cfg::default();
    cfg.symbols.mode = DeadMode::Application;
    cfg.symbols.languages = vec!["rust".into(), "typescript".into(), "python".into()];
    let r = run(&files, &cfg);
    assert_eq!(cat(&r, "src/a.ts", "dead_ts"), Some(Category::TestOnly));
    assert_eq!(cat(&r, "src/a.ts", "used_ts"), Some(Category::Overexported));
    assert_eq!(cat(&r, "pkg/m.py", "dead_py"), Some(Category::TestOnly));
    assert_eq!(cat(&r, "pkg/m.py", "a_py"), Some(Category::Overexported));
    assert!(fd(&r, "pkg/m.py").reasons.iter().all(|x| !x.contains("referenced only inside")), "{:?}", fd(&r, "pkg/m.py").reasons);
    assert!(r.notes.is_empty());
    // Library mode (the auto default for a package.json with exports) prints the knip line.
    cfg.symbols.mode = DeadMode::Library;
    let r = run(&files, &cfg);
    assert!(cat(&r, "src/a.ts", "dead_ts").is_none());
    assert!(r.notes[0].contains("run knip"));
}

#[test]
fn strict_test_only_needs_no_own_prod_ref_and_the_floor_counts_own_and_external_tests() {
    let a = "\
pub fn plan_it() {
}
pub fn once_only() {
}
pub fn split_refs() {
}
fn go() { plan_it(); }
#[cfg(test)]
mod tests {
    #[test] fn t() { plan_it(); plan_it(); once_only(); split_refs(); }
}
";
    let files = vec![src("src/a.rs", a), file("tests/t.rs", FileKind::Test, "fn t() { split_refs(); }\n")];
    let r = run(&files, &Cfg::default());
    let p = sym(&r, "src/a.rs", "plan_it");
    assert_eq!((p.category, p.own_prod_refs, p.own_test_refs), (Category::Overexported, 1, 2));
    assert_eq!(cat(&r, "src/a.rs", "once_only"), Some(Category::Reachable));
    assert_eq!(cat(&r, "src/a.rs", "split_refs"), Some(Category::TestOnly));
    let mut cfg = Cfg::default();
    cfg.test_only.min_external_test_refs = 1;
    let r = run(&files, &cfg);
    assert_eq!(cat(&r, "src/a.rs", "once_only"), Some(Category::TestOnly));
    cfg.test_only.enabled = false;
    let r = run(&files, &cfg);
    assert_eq!(cat(&r, "src/a.rs", "split_refs"), Some(Category::Reachable));
}

#[test]
fn reasons_are_capped_dead_first_longest_first_and_the_in_file_line_is_per_file() {
    let mut a = String::new();
    for (i, n) in ["short_dead", "long_dead", "mid_dead"].iter().enumerate() {
        a.push_str(&format!("pub fn {n}() {{\n{}}}\n", "    //\n".repeat(i * 2 + 1)));
    }
    a.push_str("pub fn only_here_a() {\n}\npub fn only_here_b() {\n}\npub fn only_here_c() {\n}\nfn go() { only_here_a(); only_here_b(); only_here_c(); }\n");
    let files = vec![src("src/a.rs", &a), src("src/b.rs", "pub fn used_b() {\n}\n"), src("src/c.rs", "fn go() { used_b(); }\n")];
    let mut cfg = Cfg::default();
    cfg.symbols.max_reported_per_file = 2;
    let r = run(&files, &cfg);
    let reasons = &fd(&r, "src/a.rs").reasons;
    assert_eq!(reasons[0], "pub fn mid_dead (a.rs 9-15) is called nowhere in 3 files", "{reasons:?}");
    assert_eq!(reasons[1], "pub fn long_dead (a.rs 4-8) is called nowhere in 3 files", "{reasons:?}");
    assert_eq!(reasons[2], "(+1 more dead or test-only symbols in dead_symbols)");
    assert_eq!(reasons[3], "3 of 6 pub items are referenced only inside this file (50%, 100th percentile): only_here_a (lines 16-17), only_here_b (lines 18-19) and 1 more");
    assert_eq!(reasons.len(), 4);
    assert_eq!(share(fd(&r, "src/a.rs")), 0.5);
    assert_eq!(fd(&r, "src/a.rs").dead_lines, 15 + 6);
    assert!(fd(&r, "src/a.rs").dead_lines as f64 / files[0].lines as f64 > 0.9);
    assert!(fd(&r, "src/b.rs").reasons.is_empty());
    cfg.symbols.overexported_min_items = 7;
    let r = run(&files, &cfg);
    assert!(fd(&r, "src/a.rs").reasons.iter().all(|x| !x.contains("referenced only inside")));
    assert_eq!(percentiles(&[0.5, 0.0]), vec![1.0, 0.0]);
}

#[test]
fn shapes_never_read_fields_and_never_constructed_variants() {
    let a = "\
#[derive(Debug, Clone)]
pub struct Ticket {
    pub mtime: u8,
    pub read_me: u8,
    pub _hidden: u8,
    pub in_macro: u8,
    pub captured: u8,
}
#[derive(Clone, Copy, Debug)]
pub enum Color {
    Red,
    Blue,
    Green,
    Yellow,
    Ghost,
}
#[derive(Debug, Serialize)]
pub struct Json { pub never: u8 }
#[derive(Debug, Serialize)]
pub enum Code { Handled, Raised }
#[derive(Debug, Deserialize)]
pub enum Wire { Never }
#[repr(u8)]
pub enum Repr { Never }
#[non_exhaustive]
pub enum Ext { Unmentioned, Handled }
pub enum Conv { Never }
impl From<u8> for Conv { fn from(_: u8) -> Self { Conv::Never } }
pub fn paint(c: Color) -> u8 {
    match c { Color::Red => 1, Color::Blue => 2, Color::Green | Color::Yellow => 3, Color::Ghost => 4 }
}
impl Color { fn mk() -> Self { Self::Green } }
pub fn go(t: &mut Ticket, c: Code, e: Ext) {
    t.mtime = 1;
    t.mtime += 1;
    let Ticket { read_me, .. } = *t;
    let _ = t.read_me;
    m!(t.in_macro);
    let captured = 1; let _ = format!(\"{captured}\");
    let _ = Ticket { mtime: 1, read_me: 2, _hidden: 3, in_macro: 4, captured: 5 };
    let _ = Json { never: 1 };
    let _ = Code::Raised;
    match c { Code::Handled => {}, Code::Raised => {} }
    match e { Ext::Handled => {}, _ => {} }
}
";
    let b = "use crate::a::Color::*;\nfn f() -> Color { Yellow }\npub fn touch(_: &Ticket, _: &Color, _: &Json, _: &Code, _: &Wire, _: &Repr, _: &Ext, _: &Conv) { let _ = Wire::Never; }\n";
    let files = vec![src("src/a.rs", a), src("src/b.rs", b)];
    let r = run(&files, &Cfg::default());
    let shapes: Vec<String> = fd(&r, "src/a.rs").shapes.iter().map(|s| s.reason.clone()).collect();
    // Red is constructed nowhere either; Green through `Self::Green`, Yellow bare under the
    // wildcard import in b.rs. `Handled` merges Code's and Ext's match sites (same bare name).
    assert_eq!(shapes, vec![
        "field Ticket.mtime (a.rs 3) is written at 3 sites (a.rs 34, a.rs 35, a.rs 40) and never read",
        "variant Color::Red (a.rs 11) is matched at a.rs 30 but never constructed: a state nothing produces",
        "variant Color::Blue (a.rs 12) is matched at a.rs 30 but never constructed: a state nothing produces",
        "variant Color::Ghost (a.rs 15) is matched at a.rs 30 but never constructed: a state nothing produces",
        "variant Code::Handled (a.rs 20) is matched at a.rs 43, a.rs 44 but never constructed: a state nothing produces",
        "variant Ext::Handled (a.rs 26) is matched at a.rs 43, a.rs 44 but never constructed: a state nothing produces",
    ], "{shapes:?}");
    assert_eq!(r.totals.shapes, 6);
    assert_eq!(fd(&r, "src/a.rs").reasons.last().unwrap(), "(+1 more dead shapes in dead_shapes)");
    assert!(fd(&r, "src/a.rs").reasons.iter().any(|x| x.starts_with("field Ticket.mtime")));
    // Knobs: handled-never-produced off, non_exhaustive hiding handled, type reachability.
    let mut cfg = Cfg::default();
    cfg.shapes.report_handled_never_produced = false;
    let r = run(&files, &cfg);
    assert_eq!(fd(&r, "src/a.rs").shapes.iter().map(|s| s.name.as_str()).collect::<Vec<_>>(), vec!["mtime"]);
    let mut cfg = Cfg::default();
    cfg.shapes.non_exhaustive_hides_handled = true;
    let r = run(&files, &cfg);
    assert!(fd(&r, "src/a.rs").shapes.iter().all(|s| s.owner != "Ext"));
    let files = vec![src("src/a.rs", a)];
    let r = run(&files, &Cfg::default());
    assert!(r.files.iter().find(|f| f.0 == "src/a.rs").is_none_or(|f| f.1.shapes.is_empty()), "a type nothing outside its file references has no shape findings");
    let mut cfg = Cfg::default();
    cfg.shapes.require_type_reachable = false;
    let r = run(&files, &cfg);
    // Without b.rs the wildcard import is gone: Yellow is only matched.
    assert!(fd(&r, "src/a.rs").shapes.iter().any(|s| s.name == "Yellow"));
    cfg.shapes.enabled = false;
    let files = vec![src("src/a.rs", a), src("src/b.rs", b)];
    assert!(fd(&run(&files, &cfg), "src/a.rs").shapes.is_empty());
}

#[test]
fn same_named_members_merge_and_only_hide() {
    let a = "#[derive(Debug)]\npub struct A { pub shared: u8 }\n#[derive(Debug)]\npub struct B { pub shared: u8 }\nfn go(b: &B) { let _ = b.shared; let _ = A { shared: 1 }; }\n";
    let b = "pub fn t(_: &A, _: &B) {}\n";
    let r = run(&vec![src("src/a.rs", a), src("src/b.rs", b)], &Cfg::default());
    assert!(r.files.iter().find(|f| f.0 == "src/a.rs").is_none_or(|f| f.1.shapes.is_empty()));
}

#[test]
fn every_checked_symbol_has_one_category() {
    let files = vec![
        src("src/a.rs", "pub fn gone_fn() {\n}\npub fn used_fn() {\n}\npub fn inside_fn() {\n}\nfn go() { inside_fn(); }\n"),
        src("src/b.rs", "fn go() { used_fn(); }\n"),
    ];
    let r = run(&files, &Cfg::default());
    let t = r.totals;
    let reachable = r.files.iter().flat_map(|f| f.1.symbols.iter()).filter(|s| s.category == Category::Reachable).count();
    assert_eq!(t.pub_items, t.dead + t.test_only + t.overexported + t.ambiguous + reachable);
    assert_eq!((t.dead, t.overexported, reachable), (1, 1, 1));
    let idx = index_all(&files, &Cfg::default());
    assert_eq!(idx.refs_by_file("used_fn"), vec![("src/b.rs".to_string(), RefCount { prod: 1, test: 0 })]);
    assert!(idx.definitions("nowhere_fn").is_empty());
}

#[test]
fn the_report_prints_totals_and_files() {
    let files = vec![src("src/a.rs", "pub fn gone_fn() {\n}\n")];
    let r = run(&files, &Cfg::default());
    assert!(totals_line(&r, "100").starts_with("1 pub items checked in 1 files: 1 dead, 0 test-only, 0 referenced only in-file (100% with no external production use); 0 dead shapes"), "{}", totals_line(&r, "100"));
    let text = render(&r, "100", &vec!["100".to_string()], 10);
    assert!(text.contains("src/a.rs"), "{text}");
    assert!(text.contains("  DEAD      src/a.rs:1-2  pub fn gone_fn  ext 0/0 own 0/0 (prod/test), 0 doc mentions\n"), "{text}");
}

#[test]
fn manifests_are_looked_for_above_every_file_unless_switched_off() {
    let mut cfg = Cfg::default();
    let index = index_all(&vec![src("a/b/x.rs", "pub fn f() {}\n"), src("a/y.py", "def g():\n    pass\n")], &cfg);
    let mut dirs: Vec<(String, &str)> = manifest_dirs(&index, &cfg).into_iter().map(|(d, f)| (d, manifest_name(f))).collect();
    dirs.sort();
    let want = [("", "Cargo.toml"), ("", "pyproject.toml"), ("a", "Cargo.toml"), ("a", "pyproject.toml"), ("a/b", "Cargo.toml")];
    assert_eq!(dirs, want.map(|(d, n)| (d.to_string(), n)));
    cfg.symbols.read_manifests = false;
    assert!(manifest_dirs(&index, &cfg).is_empty());
}

#[test]
fn test_files_are_indexed_on_trees_that_were_parsed_once() {
    let f = file("tests/t.rs", FileKind::Test, "#[test] fn t() { used_fn(); }\n");
    let tree = SyntaxTree::parse(f.lang, &f.content);
    let list = index_tests(&vec![(&f, tree), (&f, None)], &Cfg::default());
    assert!(list.iter().all(|i| i.test_context && i.path == "tests/t.rs"));
    assert_eq!(list[0].refs.get("used_fn").test, 1);
    assert_eq!(list[1].refs.get("used_fn").total(), 0);
}
