use scry::clones::classify::pair_kind;
use scry::clones::compare::compare;
use scry::clones::detect::{detect as detect_with, tokenize_all, CloneKind, CloneReport, FileClones, Loc};
use scry::clones::families::build;
use scry::clones::render::render_family;
use scry::clones::tables::{is_enough, Shares};
use scry::clones::winnow::winnow;
use scry::config::{Clones as Cfg, Tests as TestsCfg};
use scry::discover::{FileKind, SourceFile};
use scry::lang::Language;

const SHARES: Shares = Shares { child: 900_000, shape: 600_000 };

fn detect(files: &Vec<SourceFile>, cfg: &Cfg, tests: &TestsCfg) -> CloneReport {
    detect_with(files, cfg, tests, SHARES)
}

fn file<'a>(r: &'a CloneReport, path: &str) -> &'a FileClones {
    r.file(path).unwrap()
}

fn ratio(f: &FileClones, table_weight: f64) -> f64 {
    if f.lines == 0 { 0.0 } else { (f.logic_clone_lines as f64 + table_weight * f.table_clone_lines as f64) / f.lines as f64 }
}

fn sf(path: &str, content: String) -> SourceFile {
    SourceFile {
        path: path.into(),
        lang: Language::Python,
        kind: FileKind::Source,
        lines: content.lines().count(),
        bytes: content.len(),
        content,
    }
}

fn rs(path: &str, content: String) -> SourceFile {
    SourceFile { path: path.into(), lang: Language::Rust, kind: FileKind::Source, lines: content.lines().count(), bytes: content.len(), content }
}

/// A dispatch match of `n` arms of one shape, about 20 tokens each; `?` in every arm.
fn dispatch(name: &str, n: usize) -> String {
    let mut s = format!("pub fn {name}(ctx: &Ctx, c: Cmd) -> Result<i32> {{\n    match c {{\n");
    for i in 0..n {
        s.push_str(&format!("        Cmd::V{i}(a) => ok(&cmd::run_{i}(ctx, a)?, ctx),\n"));
    }
    s + "    }\n}\n"
}

/// A registry array of `n` struct entries of one shape, about 18 tokens each.
fn registry(name: &str, n: usize) -> String {
    let mut s = format!("pub static {name}: &[Check] = &[\n");
    for i in 0..n {
        s.push_str(&format!("    Check {{ id: \"c{i}\", about: \"check {i}\", run: check_{i}, fix: None }},\n"));
    }
    s + "];\n"
}

#[test]
fn a_uniform_match_matching_its_own_second_half_is_dropped() {
    let files = vec![rs("a.rs", dispatch("dispatch", 12))];
    let r = detect(&files, &Cfg::default(), &TestsCfg::default());
    assert!(r.pairs.is_empty());
    assert!(r.files.is_empty());
    // The knob restores the old behaviour; the tagger then sees one table on both sides,
    // `?` in every arm notwithstanding.
    assert!(!Cfg::default().table_control_kinds.iter().find(|k| k.0 == "rust").unwrap().1.iter().any(|k| k == "try_expression"));
    let keep = Cfg { drop_same_container_self_match: false, ..Cfg::default() };
    let r = detect(&files, &keep, &TestsCfg::default());
    assert_eq!(r.pairs.len(), 1);
    let p = &r.pairs[0];
    assert_eq!((p.kind, p.container_kind.as_deref(), p.entry_count), (CloneKind::Table, Some("match_block"), Some(6)));
    assert_eq!((p.a.symbol.as_deref(), p.b.symbol.as_deref()), (Some("dispatch"), Some("dispatch")));
    assert_eq!((p.a.start_line, p.a.end_line, p.b.start_line, p.b.end_line), (3, 8, 9, 14));
}

#[test]
fn sibling_copies_in_one_container_stay_logic_clones() {
    // Two methods of one impl with the same body: same container, but not a uniform run.
    let unit = |p: &str| format!("        let {p}_a = compute({p}, 1) + other[2];\n        if {p}_a > 0 && !{p} {{ panic!(\"{{}}\", {p}_a); }}\n        for {p}_i in 0..3 {{ {p}_a += {p}_i * 2; }}\n        while {p}_a > 10 {{ {p}_a -= 1; }}\n        let {p}_b: Vec<u8> = {p}.iter().filter(|x| **x > 0).cloned().collect();\n        match {p}_b.first() {{ Some(v) => {p}_a += *v as i32, None => {p}_a = 0 }}\n");
    let src = format!(
        "impl S {{\n    fn alpha(&self, aa: &[u8]) -> i32 {{\n{}        aa_a\n    }}\n    fn beta(&self, bb: &[u8]) -> i32 {{\n{}        bb_a\n    }}\n}}\n",
        unit("aa"), unit("bb")
    );
    let r = detect(&vec![rs("a.rs", src)], &Cfg::default(), &TestsCfg::default());
    assert_eq!(r.pairs.len(), 1);
    let p = &r.pairs[0];
    assert_eq!((p.kind, &p.container_kind, p.entry_count), (CloneKind::Logic, &None::<String>, None));
    assert_eq!((p.a.symbol.as_deref(), p.b.symbol.as_deref()), (Some("alpha"), Some("beta")));
    let f = file(&r, "a.rs");
    assert_eq!((f.logic_clone_lines, f.table_clone_lines), (f.clone_lines, 0));
    assert!(f.tables.is_empty());
}

#[test]
fn parallel_registries_are_a_table_pair_and_split_the_file_ratio() {
    let files = vec![rs("a.rs", registry("A", 8)), rs("b.rs", format!("use x;\n{}", registry("B", 8)))];
    let r = detect(&files, &Cfg::default(), &TestsCfg::default());
    assert_eq!(r.pairs.len(), 1);
    let p = &r.pairs[0];
    assert_eq!((p.kind, p.container_kind.as_deref(), p.entry_count), (CloneKind::Table, Some("array_expression"), Some(8)));
    assert_eq!((p.a.symbol.as_deref(), p.b.symbol.as_deref()), (Some("A"), Some("B")));
    let fa = file(&r, "a.rs");
    assert!(fa.table_clone_lines >= 8 && fa.logic_clone_lines == 0 && fa.clone_lines == fa.table_clone_lines);
    assert_eq!(fa.tables.len(), 1);
    assert_eq!((fa.tables[0].symbol.as_deref(), fa.tables[0].container_kind.as_str()), (Some("A"), "array_expression"));
    assert!((ratio(fa, 1.0) - fa.clone_lines as f64 / 10.0).abs() < 1e-9);
    // table_weight scales only the table share of the ratio.
    let r2 = detect(&files, &Cfg::default(), &TestsCfg::default());
    assert!((ratio(file(&r2, "a.rs"), 0.25) - 0.25 * ratio(fa, 1.0)).abs() < 1e-9);
}

#[test]
fn an_entry_with_control_flow_makes_the_pair_logic() {
    let reg = |name: &str| {
        let mut s = format!("pub static {name}: &[Check] = &[\n");
        for i in 0..6 {
            s.push_str(&format!("    Check {{ id: \"c{i}\", fix: if cfg_{i} {{ fix_{i} }} else {{ skip_{i} }} }},\n"));
        }
        s + "];\n"
    };
    let files = vec![rs("a.rs", reg("A")), rs("b.rs", reg("B"))];
    let r = detect(&files, &Cfg::default(), &TestsCfg::default());
    assert_eq!(r.pairs.len(), 1);
    assert_eq!(r.pairs[0].kind, CloneKind::Logic);
    // The control-flow list is a knob: with none listed the same pair is a table.
    let none = Cfg { table_control_kinds: Vec::new(), ..Cfg::default() };
    assert_eq!(detect(&files, &none, &TestsCfg::default()).pairs[0].kind, CloneKind::Table);
    // A one-sided table is logic too.
    let mixed = vec![rs("a.rs", registry("A", 8)), rs("b.rs", format!("fn f() {{\n    let v = vec![\n{}    ];\n}}\n", (0..8).map(|i| format!("        Check {{ id: \"c{i}\", about: \"check {i}\", run: check_{i}, fix: None }},\n")).collect::<String>()))];
    let strict = Cfg { table_min_entries: 9, ..Cfg::default() };
    assert!(detect(&mixed, &strict, &TestsCfg::default()).pairs.iter().all(|p| p.kind == CloneKind::Logic));
}

/// Twelve structurally different lines, so the body does not repeat itself.
fn body(p: &str) -> String {
    format!(
        "    {p}_a = compute({p}, 1) + other[2]\n\
if {p}_a and not {p}:\n\
    raise ValueError({p}_a)\n\
for {p}_i in range(3):\n\
    {p}_a += {p}_i * 2\n\
while {p}_a > 10:\n\
    {p}_a -= 1\n\
{p}_b = [{p}_x for {p}_x in {p} if {p}_x]\n\
try:\n\
    {p}_c = {p}_b[0]\n\
except IndexError:\n\
    {p}_c = None\n"
    )
}

#[test]
fn renamed_copy_is_found_and_lines_are_right() {
    let a = format!("def alpha(x):\n{}\n    return x\n", body("aa"));
    let b = format!("import os\n\ndef beta(y):\n{}\n    return y\n", body("bb"));
    let r = detect(&vec![sf("a.py", a), sf("b.py", b)], &Cfg::default(), &TestsCfg::default());
    assert_eq!(r.pairs.len(), 1);
    let p = &r.pairs[0];
    assert_eq!(p.a.file, "a.py");
    assert_eq!(p.b.file, "b.py");
    assert!(p.a.start_line <= 2 && p.a.end_line >= 13);
    assert!(p.b.start_line <= 4 && p.b.end_line >= 15);
    assert!(ratio(file(&r, "a.py"), 1.0) > 0.7);
}

#[test]
fn periodic_block_copied_into_many_files_is_still_found() {
    // 14 repeats x 6 files = 84 positions per fingerprint: more than the old
    // position cap, but only 6 files.
    let body = |p: &str| {
        let mut s = format!("def {p}_fn(x):\n");
        for i in 0..14 {
            s.push_str(&format!("    {p}_v{i} = compute_{i}(x, {i}) + other[{i}]\n    if {p}_v{i} and not x:\n        raise ValueError({p}_v{i})\n"));
        }
        s + "    return x\n"
    };
    let files: Vec<SourceFile> = ["a", "b", "c", "d", "e", "f"].iter().map(|p| sf(&format!("{p}.py"), body(p))).collect();
    let r = detect(&files, &Cfg::default(), &TestsCfg::default());
    assert!(r.pairs.len() >= 15, "{} pairs", r.pairs.len());
    assert_eq!(r.files.len(), 6);
    // Deterministic order across runs.
    let again = detect(&files, &Cfg::default(), &TestsCfg::default());
    let key = |r: &CloneReport| r.pairs.iter().map(|p| format!("{}:{}-{}:{}", p.a.file, p.a.start_line, p.b.file, p.b.start_line)).collect::<Vec<_>>();
    assert_eq!(key(&r), key(&again));
}

#[test]
fn min_tokens_is_tunable() {
    let a = format!("def alpha(x):\n{}\n    return x\n", body("aa"));
    let b = format!("def beta(y):\n{}\n    return y\n", body("bb"));
    let files = vec![sf("a.py", a), sf("b.py", b)];
    let strict = Cfg { min_tokens: 10_000, ..Cfg::default() };
    assert!(detect(&files, &strict, &TestsCfg::default()).pairs.is_empty());
    assert_eq!(detect(&files, &Cfg::default(), &TestsCfg::default()).pairs.len(), 1);
}

#[test]
fn rust_inline_test_regions_emit_no_tokens() {
    // The same twelve-line fixture twice inside `mod tests`, and once more in source.
    let unit = |p: &str| format!("    let {p}_a = compute({p}, 1) + other[2];\n    if {p}_a > 0 && !{p} {{ panic!(\"{{}}\", {p}_a); }}\n    for {p}_i in 0..3 {{ {p}_a += {p}_i * 2; }}\n    while {p}_a > 10 {{ {p}_a -= 1; }}\n    let {p}_b: Vec<u8> = {p}.iter().filter(|x| **x > 0).cloned().collect();\n    match {p}_b.first() {{ Some(v) => {p}_a += *v as i32, None => {p}_a = 0 }}\n");
    let src = format!(
        "pub fn alpha(aa: &[u8]) -> i32 {{\n{}    aa_a\n}}\n#[cfg(test)]\nmod tests {{\n    fn one(bb: &[u8]) -> i32 {{\n{}        bb_a\n    }}\n    fn two(cc: &[u8]) -> i32 {{\n{}        cc_a\n    }}\n}}\n",
        unit("aa"), unit("bb"), unit("cc")
    );
    let f = SourceFile { path: "a.rs".into(), lang: Language::Rust, kind: FileKind::Source, lines: src.lines().count(), bytes: src.len(), content: src };
    let files = vec![f];
    let off = TestsCfg { inline_modules: false, ..TestsCfg::default() };
    let with_tests = detect(&files, &Cfg::default(), &off);
    assert!(with_tests.pairs.iter().any(|p| p.a.start_line > 9 && p.b.start_line > 9));
    let stripped = detect(&files, &Cfg::default(), &TestsCfg::default());
    assert!(stripped.pairs.iter().all(|p| p.a.end_line <= 9 && p.b.end_line <= 9));
    assert!(stripped.pairs.len() < with_tests.pairs.len(), "{} vs {}", stripped.pairs.len(), with_tests.pairs.len());
}

#[test]
fn different_code_is_not_a_clone() {
    let a = "\
def load(path):
    with open(path) as fh:
        data = json.load(fh)
    for key, value in data.items():
        if not isinstance(value, dict):
            raise ValueError(key)
    return {k: Entry(**v) for k, v in data.items()}

class Registry:
    def __init__(self):
        self.entries = {}
    def add(self, e):
        self.entries[e.id] = e
    def find(self, pred):
        return [e for e in self.entries.values() if pred(e)]
";
    let b = "\
async def handler(request):
    body = await request.json()
    try:
        user = await lookup(body['id'])
    except KeyError:
        return web.Response(status=400)
    while user.pending:
        await asyncio.sleep(0.1)
    match user.role:
        case 'admin': return admin_view(user)
        case _: return plain_view(user)
";
    let r = detect(&vec![sf("a.py", a.into()), sf("b.py", b.into())], &Cfg::default(), &TestsCfg::default());
    assert!(r.pairs.is_empty());
}

#[test]
fn a_shared_run_shares_a_fingerprint() {
    // A run of k + w - 1 hashes inside two different lists leaves a common fingerprint.
    let (k, w) = (3, 4);
    let run: Vec<u64> = (0..k + w - 1).map(|i| 1000 + i as u64).collect();
    let a: Vec<u64> = [vec![1, 2, 3], run.clone(), vec![4]].concat();
    let b: Vec<u64> = [vec![9], run.clone(), vec![8, 7, 6, 5]].concat();
    let pa = winnow(&a, k, w);
    let pb = winnow(&b, k, w);
    assert!(pa.iter().any(|x| x.0 >= 3 && pb.iter().any(|y| y.1 == x.1 && y.0 >= 1 && y.0 - 1 == x.0 - 3)));
    assert!(winnow(&vec![1, 2], 3, 4).is_empty());
}

#[test]
fn shares_are_millionths() {
    assert!(is_enough(9, 10, 900_000));
    assert!(!is_enough(8, 10, 900_000));
    assert!(is_enough(0, 0, 900_000));
}

#[test]
fn cloned_lines_are_logic_or_table() {
    let files = vec![rs("a.rs", registry("A", 8)), rs("b.rs", registry("B", 8))];
    let r = detect(&files, &Cfg::default(), &TestsCfg::default());
    for (_, f) in &r.files {
        assert_eq!(f.clone_lines, f.logic_clone_lines + f.table_clone_lines);
    }
    assert!(r.pairs.iter().all(|p| p.tokens >= 70));
}

#[test]
fn six_imports_at_the_top_of_a_copied_file_are_not_a_table() {
    let uses: String = (0..6).map(|i| format!("mod m{i};\n")).collect();
    let unit = |p: &str| format!("fn {p}({p}: &[u8]) -> i32 {{\n    let {p}_a = compute({p}, 1) + other[2];\n    if {p}_a > 0 && !{p} {{ panic!(\"{{}}\", {p}_a); }}\n    for {p}_i in 0..3 {{ {p}_a += {p}_i * 2; }}\n    while {p}_a > 10 {{ {p}_a -= 1; }}\n    let {p}_b: Vec<u8> = {p}.iter().filter(|x| **x > 0).cloned().collect();\n    match {p}_b.first() {{ Some(v) => {p}_a += *v as i32, None => {p}_a = 0 }}\n    {p}_a\n}}\n");
    let files = vec![rs("a.rs", format!("{uses}{}", unit("aa"))), rs("b.rs", format!("{uses}{}", unit("bb")))];
    let r = detect(&files, &Cfg::default(), &TestsCfg::default());
    assert_eq!(r.pairs.len(), 1);
    assert_eq!(r.pairs[0].kind, CloneKind::Logic);
}

#[test]
fn the_tokens_of_both_sides_decide_the_kind() {
    let s = |n: usize, k: CloneKind| -> Vec<CloneKind> { (0..10).map(|i| if i < n { k } else { CloneKind::Logic }).collect() };
    assert_eq!(pair_kind(&s(9, CloneKind::Signature), &s(10, CloneKind::Signature), None, 900_000), CloneKind::Signature);
    assert_eq!(pair_kind(&s(8, CloneKind::Signature), &s(10, CloneKind::Signature), None, 900_000), CloneKind::Logic);
    assert_eq!(pair_kind(&s(9, CloneKind::Configuration), &s(9, CloneKind::Configuration), Some("array"), 900_000), CloneKind::Table);
    assert_eq!(pair_kind(&s(9, CloneKind::Configuration), &s(9, CloneKind::Configuration), Some("arguments"), 900_000), CloneKind::Configuration);
    assert_eq!(pair_kind(&s(0, CloneKind::Configuration), &s(9, CloneKind::Configuration), Some("arguments"), 900_000), CloneKind::Table);
}

#[test]
fn a_comparison_shows_what_is_shared_and_what_is_not() {
    let l = |file: &str, end: usize| Loc { file: file.into(), start_line: 1, end_line: end, symbol: Some("f".into()) };
    let a = "one\n  two\nthree\nfour\n";
    let b = "one\ntwo\n\n3\nfour\nfive\n";
    let c = compare(&l("a", 4), &l("b", 6), a, b);
    assert!(!c.skipped);
    let lines: Vec<(usize, usize)> = c.shared.iter().map(|x| x.a.as_ref().map(|e| (e.location.start_line, e.location.end_line)).unwrap()).collect();
    assert_eq!(lines, vec![(1, 2), (4, 4)]);
    assert_eq!(c.shared[0].a.as_ref().unwrap().code, "one\n  two");
    assert_eq!(c.differences.len(), 2);
    assert_eq!(c.differences[0].a.as_ref().unwrap().code, "three");
    assert_eq!(c.differences[0].b.as_ref().unwrap().code, "3");
    assert!(c.differences[1].a.is_none());
    assert_eq!(c.differences[1].b.as_ref().unwrap().code, "five");
    assert!(compare(&l("a", 501), &l("b", 6), a, b).skipped);
}

#[test]
fn clones_connect_functions_into_a_family() {
    let unit = |p: &str| format!("fn {p}_fn({p}: &[u8]) -> i32 {{\n    let {p}_a = compute({p}, 1) + other[2];\n    if {p}_a > 0 && !{p} {{ panic!(\"{{}}\", {p}_a); }}\n    for {p}_i in 0..3 {{ {p}_a += {p}_i * 2; }}\n    while {p}_a > 10 {{ {p}_a -= 1; }}\n    let {p}_b: Vec<u8> = {p}.iter().filter(|x| **x > 0).cloned().collect();\n    match {p}_b.first() {{ Some(v) => {p}_a += *v as i32, None => {p}_a = 0 }}\n    {p}_a\n}}\n");
    let files: Vec<SourceFile> = ["a", "b", "c"].iter().map(|p| rs(&format!("{p}.rs"), unit(p))).collect();
    let tests = TestsCfg::default();
    let r = detect(&files, &Cfg::default(), &tests);
    let toks = tokenize_all(&files, &tests);
    let fams = build(&r.pairs, &files, &toks);
    assert_eq!(fams.len(), 1);
    let f = &fams[0];
    assert_eq!(f.members.iter().map(|m| m.symbol.as_deref().unwrap()).collect::<Vec<_>>(), vec!["a_fn", "b_fn", "c_fn"]);
    assert_eq!((f.pair_count, f.matches.len(), f.comparisons.len(), f.comparisons_omitted), (3, 3, 3, 0));
    assert_eq!(f.max_shared_tokens, r.pairs[0].tokens);
    let text = render_family(f, &vec!["a.rs a_fn".to_string()]);
    assert!(text.starts_with(&format!("  3 members, 3 matching runs, largest {} tokens\n    a.rs a_fn\n    compare a_fn <-> b_fn (source differences; check behavior before extracting)\n", f.max_shared_tokens)), "{text}");
    assert!(text.ends_with("    +2 comparisons in JSON\n"), "{text}");
}
