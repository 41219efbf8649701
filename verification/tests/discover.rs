use scry::config::Discover as Cfg;
use scry::discover::{classify, logic_lines, FileKind};

/// The kind of a file, with the logic density under which it is data.
fn kind_under(path: &str, content: &str, lines: usize, max_density: f64, c: &Cfg) -> FileKind {
    let (logic, total) = logic_lines(content);
    let density = if total == 0 { 0.0 } else { logic as f64 / total as f64 };
    classify(path, content, lines, density < max_density, c)
}

fn kind(path: &str, content: &str, lines: usize, c: &Cfg) -> FileKind {
    kind_under(path, content, lines, 0.04, c)
}

#[test]
fn classifies_by_path() {
    let c = Cfg::default();
    assert_eq!(kind("backend/tests/test_x.py", "", 1, &c), FileKind::Test);
    assert_eq!(kind("frontend/src/a.test.tsx", "", 1, &c), FileKind::Test);
    assert_eq!(kind("node_modules/x/index.js", "", 1, &c), FileKind::Vendored);
    assert_eq!(kind("app/migrations/0001_init.py", "", 1, &c), FileKind::Generated);
    assert_eq!(kind("src/types/api.ts", "/* eslint-disable */\n// This file is auto-generated\n", 2, &c), FileKind::Generated);
    assert_eq!(kind("src/heroes/fixtures.ts", "", 1, &c), FileKind::Data);
    assert_eq!(kind("src/engine/combat.py", "def f():\n    return 1\n", 2, &c), FileKind::Source);
}

#[test]
fn config_changes_classification() {
    let mut c = Cfg::default();
    c.test_dirs = vec!["qa".into()];
    c.vendor_dirs.push("extern".into());
    assert_eq!(kind("qa/x.py", "", 1, &c), FileKind::Test);
    assert_eq!(kind("tests/x.py", "", 1, &c), FileKind::Source);
    assert_eq!(kind("extern/x.py", "", 1, &c), FileKind::Vendored);
    c.data_min_lines = 10;
    assert_eq!(kind_under("a.py", &"x = 1\n".repeat(12), 12, 0.5, &c), FileKind::Data);
}

#[test]
fn literal_tables_are_data() {
    let table: String = (0..300).map(|i| format!("  {{ x: {i}, y: {i}, tile: \"grass\" }},\n")).collect();
    let content = format!("export const MAP = [\n{table}];\n");
    assert_eq!(kind("src/dev/bigMap.ts", &content, 302, &Cfg::default()), FileKind::Data);
}

#[test]
fn logic_lines_leave_blanks_and_comments_out() {
    assert_eq!(logic_lines("x = 1\n\n# if\nif x:\n    return x\n"), (2, 3));
    assert_eq!(logic_lines(""), (0, 0));
}
