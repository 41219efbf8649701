use scry::clumps::clump::variants_of;
use scry::clumps::render::{render, totals_line, Percents};
use scry::clumps::report::{analyze, pieces, struct_name, ClumpsReport, FileClumps};
use scry::clumps::clump::Member;
use scry::clumps::side::{captures, index_all, FileSide, FnSite, Walker};
use scry::config::Clumps as Cfg;
use scry::discover::{FileKind, SourceFile};
use scry::lang::Language;

fn src(path: &str, content: &str) -> SourceFile {
    let lang = Language::from_path(path).unwrap();
    SourceFile { path: path.into(), lang, kind: FileKind::Source, lines: content.lines().count(), bytes: content.len(), content: content.into() }
}

fn side(path: &str, content: &str, cfg: &Cfg) -> FileSide {
    Walker::new(cfg).parse_side(&src(path, content))
}

fn percents(r: &ClumpsReport) -> Percents {
    let t = &r.totals;
    let pct = |n: usize| if t.functions == 0 { 0.0 } else { 100.0 * n as f64 / t.functions as f64 };
    Percents { in_clumps: format!("{:.1}", pct(t.in_clumps)), silenced: format!("{:.1}", pct(t.silenced_functions)) }
}

fn file<'a>(r: &'a ClumpsReport, path: &str) -> &'a FileClumps {
    &r.files.iter().find(|f| f.0 == path).unwrap().1
}

fn sig(f: &FnSite) -> String {
    format!("{}({})", f.name, f.params.iter().map(|p| format!("{}{}{}", p.name, p.ty.as_ref().map(|t| format!(": {t}")).unwrap_or_default(), if p.unused { "!" } else { "" })).collect::<Vec<_>>().join(", "))
}

fn sigs(path: &str, content: &str, cfg: &Cfg) -> Vec<String> {
    side(path, content, cfg).functions.iter().map(sig).collect()
}

fn run(files: &Vec<SourceFile>, cfg: &Cfg) -> ClumpsReport {
    analyze(&index_all(files, cfg), cfg)
}

const FLOW: &str = "\
pub fn plan_start(s: &Snapshot, f: &StartFacts, a: &StartArgs, _m: &Minter) -> Plan { go(s, f, a) }
pub fn plan_ship(s: &Snapshot, f: &ShipFacts, a: &ShipArgs, _m: &Minter) -> Plan { go(s, f, a) }
pub fn plan_park(s: &Snapshot, f: &Facts, a: &ParkArgs, _m: &Minter) -> Plan { go(s, f, a) }
pub fn plan_drop(s: &Snapshot, f: &Facts, a: &DropArgs, _m: &Minter) -> Plan { go(s, f, a) }
pub fn run(s: &Snapshot) { plan_start(); plan_ship(); plan_park(); plan_drop(); plan_repair(); }
";
const REPAIR: &str = "pub fn plan_repair(s: &Snapshot, f: &Facts, a: &RepairArgs, _m: &Minter) -> Plan { go(s, f, a) }\n";

#[test]
fn parameters_are_named_typed_and_receivers_and_patterns_are_left_out() {
    let cfg = Cfg::default();
    let rs = "impl S { fn m(&self, a: u8, mut b: u8, (c, d): (u8, u8), _e: T) -> u8 { S { b }; println!(\"{a:?}\"); a } fn n(self: Box<Self>, x: &'a  str) { x; } }\nfn f(q: u8, r: u8, s: u8, t: u8, u: u8, v: u8, w: u8, x: u8, y: u8) { q + r + s + t + u + v + w + x + y }\n";
    assert_eq!(sigs("a.rs", rs, &cfg), vec!["S.m(a: u8, b: u8, _e: T!)", "S.n(x: &'a str)", "f(q: u8, r: u8, s: u8, t: u8, u: u8, v: u8, w: u8, x: u8)"]);
    assert_eq!(sigs("a.rs", rs, &Cfg { max_params: 3, ..Cfg::default() })[2], "f(q: u8, r: u8, s: u8)");
    let py = "def m(self, a, b: int, c=1, d: int = 2, *args, **kw): return a + b + c\ndef n(cls, x): return x\n";
    assert_eq!(sigs("b.py", py, &cfg), vec!["m(a, b: int, c, d: int!)", "n(x)"]);
    let ts = "function f(a: number, b?: string, { c }: Opts, ...rest: T[]) { return a; }\nconst g = x => x;\nfunction h(this: W, a, b) { return b; }\n";
    assert_eq!(sigs("c.ts", ts, &cfg), vec!["f(a: number, b: string!)", "g(x)", "h(a!, b)"]);
}

#[test]
fn unused_is_the_prefix_or_no_reference_and_format_captures_count() {
    let cfg = Cfg::default();
    let rs = "fn f(a: u8, b: u8, c: u8, d: u8, e: u8, _f: u8) { println!(\"{a} {b:?} {{c}} {}\", d); S { e }; _f; }\n";
    assert_eq!(sigs("a.rs", rs, &cfg), vec!["f(a: u8, b: u8, c: u8!, d: u8, e: u8, _f: u8!)"]);
    // A capture outside a macro token tree is plain text; the prefix knob can be emptied.
    assert_eq!(sigs("a.rs", "fn f(a: u8) { let s = \"{a}\"; }\n", &cfg), vec!["f(a: u8!)"]);
    assert_eq!(sigs("a.rs", rs, &Cfg { unused_prefix: String::new(), ..Cfg::default() })[0], "f(a: u8, b: u8, c: u8!, d: u8, e: u8, _f: u8)");
    let ts = "function f(a: number, b: number, c: number) { const o = { a, x: b }; return `${c}`; }\n";
    assert_eq!(sigs("c.ts", ts, &cfg), vec!["f(a: number, b: number, c: number)"]);
    let py = "def f(a, b, c):\n    return f\"{a} {b!r}\"\n";
    assert_eq!(sigs("b.py", py, &cfg), vec!["f(a, b, c!)"]);
}

#[test]
fn owned_signatures_only_and_same_names_count_once() {
    let cfg = Cfg::default();
    let rs = "\
impl Tr for S { fn t(&self, a: u8, b: u8, c: u8) { a + b + c } }
trait Tr2 { fn sig(a: u8, b: u8, c: u8); fn dflt(a: u8, b: u8, c: u8) { a + b + c } }
impl S { fn inherent(&self, a: u8, b: u8, c: u8) { a + b + c } }
#[cfg(unix)] fn twin(a: u8, b: u8, c: u8) { a + b + c }
#[cfg(windows)] fn twin(a: u8, b: u8, c: u8) { a }
#[test] fn t(a: u8, b: u8, c: u8) { a + b + c }
#[cfg(test)] mod tests { fn helper(a: u8, b: u8, c: u8) { a + b + c } }
";
    let s = side("a.rs", rs, &cfg);
    assert_eq!(s.functions.iter().map(sig).collect::<Vec<_>>(), vec!["S.inherent(a: u8, b: u8, c: u8)", "twin(a: u8, b: u8, c: u8)"]);
    assert_eq!((s.skipped_trait_impls, s.skipped_duplicates), (2, 1));
    let all = side("a.rs", rs, &Cfg { skip_trait_impls: false, dedupe_same_name_in_file: false, ..Cfg::default() });
    assert_eq!(all.functions.len(), 5, "{:?}", all.functions.iter().map(sig).collect::<Vec<_>>());
    let py = "\
class C(Base):
    def m(self, a, b, c): return a + b + c
class D:
    def m(self, a, b, c): return a + b + c
@overload
def f(a: int, b: int, c: int) -> int: ...
def f(a, b, c): return a + b + c
def g(a, b, c):
    \"\"\"doc\"\"\"
    pass
def __eq__(a, b, c): return a
def h(a, b, c): return a
";
    let s = side("b.py", py, &cfg);
    assert_eq!(s.functions.iter().map(sig).collect::<Vec<_>>(), vec!["D.m(a, b, c)", "f(a, b, c)", "h(a, b!, c!)"]);
    assert_eq!((s.skipped_trait_impls, s.skipped_other), (1, 3));
    let s = side("b.py", py, &Cfg { skip_dunder: false, skip_overloads: false, ..Cfg::default() });
    assert_eq!(s.functions.iter().map(|f| f.name.as_str()).collect::<Vec<_>>(), vec!["D.m", "f", "__eq__", "h"]);
    let ts = "\
class K extends B { m(a: number, b: number, c: number) { return a + b + c; } }
class L { m(a: number, b: number, c: number) { return a + b + c; } }
abstract class A { abstract n(a: number, b: number, c: number): void; }
interface I { s(a: number, b: number, c: number): void; }
function f(a: number, b: number, c: number): void;
function f(a: number, b: number, c: number) { return a; }
arr.map((a: number, b: number, c: number) => a);
const g = (a: number, b: number, c: number) => a;
const w = new Writable({ write(chunk: Buffer, _encoding: string, callback: () => void) { callback() }, final: function (a: number, b: number, c: number) { return a } });
run(({ a, b }) => a, { handle: (a: number, b: number, c: number) => a } as Opts);
";
    let s = side("c.ts", ts, &cfg);
    // Methods and functions inside an object literal passed as an argument (`new Writable({
    // write(...) {} })`) are protocol callbacks too.
    assert_eq!(s.functions.iter().map(|f| f.name.as_str()).collect::<Vec<_>>(), vec!["L.m", "f", "g"]);
    assert_eq!(s.skipped_trait_impls, 6);
}

#[test]
fn protocol_tuples_are_never_analysed() {
    let cfg = Cfg::default();
    let py = "def show_help(ctx: Context, param: Parameter, value: bool): return value\ndef other(ctx: Context, param: Parameter, incomplete: str): return incomplete\n";
    let s = side("b.py", py, &cfg);
    assert_eq!(s.functions.iter().map(|f| f.name.as_str()).collect::<Vec<_>>(), vec!["other"]);
    assert_eq!(s.skipped_protocol, 1);
    let ts = "app.use(async (c, next, extra) => { await next(); });\nexport const mw = async (c: Context, next: Next, opts: O) => { await next(); };\n";
    let s = side("c.ts", ts, &cfg);
    assert!(s.functions.is_empty(), "{:?}", s.functions.iter().map(sig).collect::<Vec<_>>());
    assert_eq!((s.skipped_trait_impls, s.skipped_protocol), (1, 1));
    assert_eq!(side("b.py", py, &Cfg { protocol_tuples: vec![], ..Cfg::default() }).functions.len(), 2);
}

#[test]
fn flagship_clump_reports_unused_varying_and_single_caller_with_the_reason_wording() {
    let cfg = Cfg::default();
    let r = run(&vec![src("src/cmd/flow.rs", FLOW), src("src/cmd/repair.rs", REPAIR)], &cfg);
    assert_eq!(r.clumps.len(), 1, "{:?}", r.clumps.iter().map(|c| &c.line).collect::<Vec<_>>());
    let c = &r.clumps[0];
    assert_eq!(c.params, vec!["s", "f", "a", "_m"]);
    assert_eq!(c.types, vec![Some("&Snapshot".to_string()), None, None, Some("&Minter".to_string())]);
    assert_eq!(*variants_of(&c.variants, "f").unwrap(), vec!["&StartFacts", "&ShipFacts", "&Facts"]);
    assert_eq!((c.functions.len(), c.files), (5, 2));
    assert_eq!(c.unused_slots, vec![("_m".to_string(), 5)]);
    assert_eq!(c.single_caller.as_deref(), Some("run"));
    assert_eq!(c.line, " 5 fns   2 files  (s: &Snapshot, f, a, _m: &Minter)  plan_start src/cmd/flow.rs:1, plan_ship :2, plan_park :3, plan_drop :4, plan_repair src/cmd/repair.rs:1; _m unused in 5/5; f varies (&StartFacts, &ShipFacts, &Facts); a varies (&StartArgs, &ShipArgs, &ParkArgs, &DropArgs, &RepairArgs); all called from run");
    let reason = "parameters (s, f, a, _m) recur in 5 functions across 2 files (plan_start src/cmd/flow.rs:1, plan_ship :2, plan_park :3, plan_drop :4, plan_repair src/cmd/repair.rs:1); `_m` is unused in all 5; `f` varies (&StartFacts, &ShipFacts, &Facts); `a` varies (&StartArgs, &ShipArgs, &ParkArgs, &DropArgs, &RepairArgs); all called from `run` - introduce a PlanInput struct or drop the slot";
    assert_eq!(file(&r, "src/cmd/flow.rs").reasons, vec![reason]);
    assert_eq!(file(&r, "src/cmd/repair.rs").reasons, vec![reason]);
    assert_eq!(file(&r, "src/cmd/flow.rs").members, 4);
    assert_eq!(file(&r, "src/cmd/flow.rs").clumps, vec![("(s, f, a, _m)".to_string(), 1), ("(s, f, a, _m)".to_string(), 2), ("(s, f, a, _m)".to_string(), 3), ("(s, f, a, _m)".to_string(), 4)]);
    assert_eq!((r.totals.functions, r.totals.in_clumps, r.totals.clumps, r.totals.files, r.totals.silenced_functions), (6, 5, 1, 2, 5));
    assert_eq!(totals_line(&r, "_", &percents(&r)), "1 clumps over 5 of 6 functions (83.3%) in 2 files; 5 functions (83.3%) carry a _-prefixed parameter");
    // A slot unused in some members is `k of n`; a used one recommends only the struct.
    let repair2 = REPAIR.replace("go(s, f, a)", "go(s, f, a, _m)");
    let r = run(&vec![src("src/cmd/flow.rs", FLOW), src("src/cmd/repair.rs", &repair2)], &Cfg { unused_prefix: String::new(), ..Cfg::default() });
    assert_eq!(r.clumps.len(), 1, "{:?}", r.clumps.iter().map(|c| &c.line).collect::<Vec<_>>());
    assert!(file(&r, "src/cmd/repair.rs").reasons[0].contains("`_m` is unused in 4 of 5"), "{:?}", file(&r, "src/cmd/repair.rs").reasons);
    assert!(file(&r, "src/cmd/repair.rs").reasons[0].ends_with("- introduce a PlanInput struct"), "{:?}", file(&r, "src/cmd/repair.rs").reasons);
    // Two callers, or none, drop the note; the knob turns it off.
    let flow2 = format!("{FLOW}pub fn run2() {{ plan_start(); }}\n");
    assert_eq!(run(&vec![src("src/cmd/flow.rs", &flow2), src("src/cmd/repair.rs", REPAIR)], &cfg).clumps[0].single_caller, None);
    // A caller the pass does not analyse (a trait method, a dispatch table) is a caller too.
    let trait_caller = format!("{FLOW}impl Command for X {{ fn execute(&self) {{ plan_ship(); }} }}\n");
    assert_eq!(run(&vec![src("src/cmd/flow.rs", &trait_caller), src("src/cmd/repair.rs", REPAIR)], &cfg).clumps[0].single_caller, None);
    let table = format!("{FLOW}static TABLE: &[fn()] = &[plan_park];\n");
    assert_eq!(run(&vec![src("src/cmd/flow.rs", &table), src("src/cmd/repair.rs", REPAIR)], &cfg).clumps[0].single_caller, None);
    // An import of the name, or a test, is not.
    let imported = format!("use crate::cmd::flow::plan_start;\n{FLOW}#[cfg(test)]\nmod tests {{ fn t() {{ plan_drop(); }} }}\n");
    assert_eq!(run(&vec![src("src/cmd/flow.rs", &imported), src("src/cmd/repair.rs", REPAIR)], &cfg).clumps[0].single_caller.as_deref(), Some("run"));
    assert_eq!(run(&vec![src("src/cmd/flow.rs", FLOW), src("src/cmd/repair.rs", REPAIR)], &Cfg { note_single_caller: false, ..Cfg::default() }).clumps[0].single_caller, None);
}

#[test]
fn thresholds_typed_gate_and_untyped_fallback() {
    let cfg = Cfg::default();
    let f = |name: &str, body: &str| format!("fn {name}(a: &A, b: &B, c: &C) -> u8 {{ {body} }}\n");
    let four: String = ["p", "q", "r", "s"].iter().map(|n| f(n, "a + b + c")).collect();
    // Four members in one file report; three do not; two files with two members do.
    assert_eq!(run(&vec![src("x.rs", &four)], &cfg).clumps.len(), 1);
    assert_eq!(run(&vec![src("x.rs", &four.lines().take(3).collect::<Vec<_>>().join("\n"))], &cfg).clumps.len(), 0);
    let two = run(&vec![src("x.rs", &f("p", "a")), src("y.rs", &f("q", "b"))], &cfg);
    assert_eq!(two.clumps.len(), 1);
    assert_eq!(file(&two, "x.rs").reasons[0], "parameters (a, b, c) recur in 2 functions across 2 files (p x.rs:1, q y.rs:1); `a` is unused in 1 of 2; `b` is unused in 1 of 2; `c` is unused in all 2 - introduce a shared input struct or drop the slot");
    assert_eq!(run(&vec![src("x.rs", &f("p", "a")), src("y.rs", &f("q", "b"))], &Cfg { report_if_either: false, ..Cfg::default() }).clumps.len(), 0);
    assert_eq!(run(&vec![src("x.rs", &four)], &Cfg { min_functions: 5, ..Cfg::default() }).clumps.len(), 0);
    // One agreeing typed slot is below the bar; the knob lowers it.
    let mixed = "fn p(a: &A, b: &B1, c: &C1) { a } fn q(a: &A, b: &B2, c: &C2) { a } fn r(a: &A, b: &B3, c: &C3) { a } fn s(a: &A, b: &B4, c: &C4) { a }\n";
    assert_eq!(run(&vec![src("x.rs", mixed)], &cfg).clumps.len(), 0);
    assert_eq!(run(&vec![src("x.rs", mixed)], &Cfg { min_typed_slots: 1, ..Cfg::default() }).clumps.len(), 1);
    // Untyped: min_functions + 1 members and the joined-name floor; typed one-letter tuples pass.
    let py = |n: usize, names: &str| (0..n).map(|i| format!("def f{i}({names}): return 1\n")).collect::<String>();
    assert_eq!(run(&vec![src("b.py", &py(4, "a, b, c"))], &cfg).clumps.len(), 0);
    assert_eq!(run(&vec![src("b.py", &py(5, "a, b, c"))], &cfg).clumps.len(), 1);
    assert_eq!(run(&vec![src("b.py", &py(5, "a, b, c"))], &Cfg { min_name_len: 4, ..Cfg::default() }).clumps.len(), 0);
    assert_eq!(run(&vec![src("b.py", &py(5, "ab, b, c"))], &Cfg { min_name_len: 4, ..Cfg::default() }).clumps.len(), 1);
    assert_eq!(run(&vec![src("x.rs", &four)], &Cfg { min_name_len: 4, ..Cfg::default() }).clumps.len(), 1);
    // Partly annotated Python below the typed bar is not a clump.
    assert_eq!(run(&vec![src("b.py", &py(5, "a: int, b, c"))], &cfg).clumps.len(), 0);
}

#[test]
fn groups_with_one_member_set_collapse_and_wider_groups_stay() {
    let cfg = Cfg::default();
    let f = |name: &str, params: &str| format!("fn {name}({params}) -> u8 {{ 0 }}\n");
    let five = "a: &A, b: &B, c: &C, d: &D, e: &E";
    let files = vec![
        src("x.rs", &[f("p", five), f("q", five), f("r", five), f("s", five), f("t", "a: &A, b: &B, c: &C")].concat()),
    ];
    let r = run(&files, &cfg);
    let lines: Vec<(Vec<String>, usize)> = r.clumps.iter().map(|c| (c.params.clone(), c.functions.len())).collect();
    assert_eq!(lines, vec![(vec!["a".into(), "b".into(), "c".into()], 5), (vec!["a".into(), "b".into(), "c".into(), "d".into(), "e".into()], 4)]);
    assert_eq!(file(&r, "x.rs").members, 5);
    assert_eq!(file(&r, "x.rs").reasons.len(), 2);
    // The per-file cap, then the remainder line; `max_group` bounds what is grouped.
    let r = run(&files, &Cfg { max_reported_per_file: 1, ..Cfg::default() });
    assert_eq!(file(&r, "x.rs").reasons[1], "(+1 more parameter clumps in clumps)");
    assert_eq!(run(&files, &Cfg { min_group: 5, max_group: 5, ..Cfg::default() }).clumps.len(), 1);
    assert!(run(&files, &Cfg { min_group: 6, max_group: 6, ..Cfg::default() }).clumps.is_empty());
}

#[test]
fn render_lists_clumps_and_files() {
    let cfg = Cfg::default();
    let r = run(&vec![src("src/cmd/flow.rs", FLOW), src("src/cmd/repair.rs", REPAIR)], &cfg);
    let text = render(&r, 10, "_", &percents(&r));
    assert!(text.starts_with("1 clumps over 5 of 6 functions (83.3%) in 2 files; 5 functions (83.3%) carry a _-prefixed parameter\n\nclumps (functions, files):\n   5 fns   2 files  (s: &Snapshot"), "{text}");
    assert!(text.contains("\nfiles (functions in clumps):\n      4  src/cmd/flow.rs\n         - parameters (s, f, a, _m) recur"), "{text}");
    let empty = render(&ClumpsReport::default(), 10, "_", &percents(&ClumpsReport::default()));
    assert!(empty.contains("clumps (functions, files):\n  none\n"), "{empty}");
}

#[test]
fn a_capture_needs_a_closed_name() {
    let mut out: Vec<String> = Vec::new();
    captures("{a} {b:?} {{c}} {} {d e} {_f1:>4} {g", &mut out);
    assert_eq!(out, vec!["a", "b", "_f1"]);
}

#[test]
fn name_pieces_split_on_bars_and_capitals() {
    assert_eq!(pieces("plan_repair"), vec!["plan", "repair"]);
    assert_eq!(pieces("printEntryFormat"), vec!["print", "entry", "format"]);
    assert_eq!(pieces("__x-Y"), vec!["x", "y"]);
    let m = |name: &str| Member { file: "a.rs".into(), name: name.into(), line: 1 };
    assert_eq!(struct_name(&vec![m("S.plan_start"), m("plan_ship")]).as_deref(), Some("PlanInput"));
    assert_eq!(struct_name(&vec![m("read_all_rows"), m("read_all_columns")]).as_deref(), Some("ReadAllInput"));
    assert_eq!(struct_name(&vec![m("start"), m("ship")]), None);
    assert_eq!(struct_name(&vec![]), None);
}

#[test]
fn every_member_carries_the_slots_of_its_clump() {
    let cfg = Cfg::default();
    let sides = index_all(&vec![src("src/cmd/flow.rs", FLOW), src("src/cmd/repair.rs", REPAIR)], &cfg);
    let r = analyze(&sides, &cfg);
    for c in &r.clumps {
        for m in &c.functions {
            let s = sides.iter().find(|s| s.path == m.file).unwrap();
            let f = s.functions.iter().find(|f| f.name == m.name && f.line == m.line).unwrap();
            for p in &c.params {
                assert!(f.params.iter().any(|q| q.name == *p));
            }
        }
    }
}

#[test]
fn only_source_files_are_indexed() {
    let mut t = src("tests/a.rs", FLOW);
    t.kind = FileKind::Test;
    assert_eq!(index_all(&vec![t, src("src/b.rs", REPAIR)], &Cfg::default()).len(), 1);
}
