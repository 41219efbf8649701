use scry::comments::banners::Section;
use scry::comments::lines::LineIndex;
use scry::comments::render::render;
use scry::comments::report::{analyze, banner_reason, slug, CommentsReport, FileComments, FileSide, SizeRank};
use scry::comments::titles::{is_skipped, rule_class, titled, Walker};
use scry::config::{Banners, Comments as Cfg, Metrics as MetricsCfg};
use scry::discover::{FileKind, SourceFile};
use scry::lang::Language;
use scry::regions::{contains, test_regions};
use scry::tree::SyntaxTree;
use scry::units::FunctionMetrics;

fn file(path: &str, lang: Language, content: &str) -> SourceFile {
    SourceFile { path: path.into(), lang, kind: FileKind::Source, lines: content.lines().count(), bytes: content.len(), content: content.into() }
}

/// Branches among the nodes from `from` to `to`, each counted with those it stands in.
fn branches(t: &SyntaxTree, from: usize, to: usize) -> u32 {
    let branch = |i: usize| {
        matches!(t.nodes[i].kind.as_str(), "if_expression" | "match_expression" | "if_statement" | "switch_statement")
    };
    let mut n = 0;
    for i in from..to {
        if branch(i) {
            n += 1;
            let mut at = t.nodes[i].parent;
            while let Some(p) = at {
                if p < from {
                    break;
                }
                n += u32::from(branch(p));
                at = t.nodes[p].parent;
            }
        }
    }
    n
}

fn side_with(f: &SourceFile, cfg: &Cfg, metrics: &MetricsCfg) -> FileSide {
    let w = Walker::new(cfg, metrics);
    let t = SyntaxTree::parse(f.lang, &f.content).unwrap();
    let regions = if matches!(f.lang, Language::Rust) { test_regions(&t) } else { vec![] };
    let (mut funcs, mut nodes, mut estimates) = (vec![], vec![], vec![]);
    for i in 0..t.nodes.len() {
        let n = &t.nodes[i];
        if !matches!(n.kind.as_str(), "function_item" | "function_definition" | "function_declaration") {
            continue;
        }
        let name = n.children.iter().find(|c| t.nodes[**c].field == "name").unwrap();
        funcs.push(FunctionMetrics {
            name: t.nodes[*name].text.clone(),
            start_line: n.line,
            end_line: n.end_line,
            lines: n.end_line - n.line + 1,
            cognitive: branches(&t, i, n.after),
            in_test: contains(&regions, n.start),
            parse_defaults: 0,
            fallback_sites: vec![],
        });
        let stmts = w.phase_statements(&t, i, f.lang, f.content.as_bytes());
        estimates.push(stmts.iter().map(|s| s.iter().map(|x| branches(&t, *x, t.nodes[*x].after)).sum()).collect());
        nodes.push(i);
    }
    w.file_side(Some(&t), f, &regions, &funcs, &nodes, &estimates)
}

fn side(f: &SourceFile) -> FileSide {
    side_with(f, &Cfg::default(), &MetricsCfg::default())
}

/// How large each file is: the share of the other files that are smaller.
fn ranks(sides: &[FileSide], min: f64) -> Vec<SizeRank> {
    let rank = |s: &FileSide| {
        let less = sides.iter().filter(|o| o.source_lines < s.source_lines).count();
        100.0 * less as f64 / (sides.len() - 1) as f64
    };
    sides.iter().map(|s| SizeRank { above: rank(s) >= min, percentile: format!("{:.0}", rank(s)) }).collect()
}

fn found<'a>(r: &'a CommentsReport, path: &str) -> &'a FileComments {
    &r.files.iter().find(|f| f.0 == path).unwrap().1
}

fn rule() -> &'static str {
    "─────────────────────────────────"
}

#[test]
fn rust_rule_title_rule_triples_partition_the_file_and_doc_comments_never_count() {
    let src = format!(
        "use std::io;\n\n// {r}\n// The seals\n// {r}\n\npub struct A;\nfn a() {{}}\n\n/// {r}\nfn doc_rule() {{}}\n\n// ── The ladder ──{r}\n\nfn b() {{}}\nfn c() {{}}\n\n// {r}\n// The override\n// {r}\n\nfn d() {{}}\n#[cfg(test)]\nmod tests {{\n    // {r}\n    // not a banner: inside mod tests\n    // {r}\n    fn t() {{}}\n}}\n",
        r = rule()
    );
    let s = side(&file("scan.rs", Language::Rust, &src));
    assert_eq!(s.banners, 5);
    let got: Vec<(&str, usize, usize, usize, usize)> = s.sections.iter().map(|x| (x.name.as_str(), x.start, x.end, x.lines, x.functions)).collect();
    assert_eq!(got, vec![("The seals", 6, 12, 7, 2), ("The ladder", 14, 17, 4, 2), ("The override", 21, 29, 9, 1)], "{got:?}");
    // The unit inside `mod tests` is not counted; the doc-comment rule is not a boundary.
}

#[test]
fn rule_characters_are_counted_as_characters_and_short_rules_need_text() {
    let s = side(&file("a.rs", Language::Rust, "// ──\n// ────── \nfn a() {}\n// ─────\nfn b() {}\n// ── Title\nfn c() {}\n// -- Also\nfn d() {}\n// ------\nfn e() {}\n"));
    // `──` (2 chars, 6 bytes) and `─────` (5) are no rule; `──────` (6) is a bare rule;
    // the short forms carry a title; the bare `------` has none.
    let names: Vec<&str> = s.sections.iter().map(|x| x.name.as_str()).collect();
    assert_eq!(names, vec!["Title", "Also"]);
    assert_eq!(s.banners, 4);
}

#[test]
fn editor_markers_and_untitled_rules_are_not_boundaries_unless_asked() {
    let src = "// #region Foo\nfunction a() {}\n// #endregion\n// %% cell\n// ==========\nfunction b() {}\n// ====== #endregion ======\nfunction c() {}\n";
    let s = side(&file("a.ts", Language::TypeScript, src));
    assert!(s.sections.is_empty());
    let mut cfg = Cfg::default();
    cfg.banners.require_title = false;
    let s = side_with(&file("a.ts", Language::TypeScript, src), &cfg, &MetricsCfg::default());
    assert_eq!(s.sections.iter().map(|x| (x.name.as_str(), x.start)).collect::<Vec<_>>(), vec![("", 6)]);
}

#[test]
fn a_top_of_file_header_pair_before_the_imports_is_skipped() {
    let src = "// ==========\n// Copyright\n// ==========\nimport os\n# ---------- helpers ----------\ndef a():\n    pass\n# ---------- main ----------\ndef b():\n    pass\n".replace("//", "#");
    let s = side(&file("m.py", Language::Python, &src));
    assert_eq!(s.sections.iter().map(|x| x.name.as_str()).collect::<Vec<_>>(), vec!["helpers", "main"]);
    let mut cfg = Cfg::default();
    cfg.banners.skip_top_of_file = false;
    let s = side_with(&file("m.py", Language::Python, &src), &cfg, &MetricsCfg::default());
    assert_eq!(s.sections.iter().map(|x| x.name.as_str()).collect::<Vec<_>>(), vec!["Copyright", "helpers", "main"]);
    // A long header: rule, many lines, rule, then the import: both rules go.
    let long = "# ===== LICENSE =====\n# a\n# b\n# c\n# d\n# ===== END =====\nimport os\n# ---------- helpers ----------\ndef a():\n    pass\n";
    let s = side(&file("l.py", Language::Python, long));
    assert_eq!(s.sections.iter().map(|x| x.name.as_str()).collect::<Vec<_>>(), vec!["helpers"]);
}

#[test]
fn rows_come_from_byte_offsets_on_multibyte_rules() {
    let src = format!("fn a() {{}}\n// {r} Título ünïcode {r}\nfn b() {{}}\n", r = rule());
    let s = side(&file("u.rs", Language::Rust, &src));
    assert_eq!(s.sections.iter().map(|x| (x.name.as_str(), x.start, x.end)).collect::<Vec<_>>(), vec![("Título ünïcode", 3, 3)]);
    let li = LineIndex::new(src.as_bytes());
    assert_eq!((li.count(), li.line_of(0), li.line_of(src.len() - 1)), (3, 1, 3));
}

#[test]
fn analyze_applies_lines_sections_largest_and_percentile_thresholds() {
    let mut cfg = Cfg::default();
    cfg.banners.min_file_lines = 10;
    cfg.banners.min_section_lines = 3;
    cfg.banners.min_sections = 2;
    let min_size_percentile = 60.0;
    let body = "fn x() {}\n".repeat(4);
    let big = format!("// ==== one ====\n{body}{body}// ==== two ====\n{body}// ==== three ====\n{body}");
    let files = [file("big.rs", Language::Rust, &big), file("small.rs", Language::Rust, "// ==== one ====\nfn a() {}\n// ==== two ====\nfn b() {}\n"), file("mid.rs", Language::Rust, &"fn y() {}\n".repeat(20))];
    let sides: Vec<FileSide> = files.iter().map(|f| side_with(f, &cfg, &MetricsCfg::default())).collect();
    let r = analyze(&sides, &ranks(&sides, min_size_percentile), &cfg);
    let big = found(&r, "big.rs");
    assert!(big.qualifies && !big.above_size_percentile);
    assert_eq!(big.banner_reason.as_deref(), Some("big.rs is cut into 3 labelled sections: 'one' 2-9 (8 lines, 8 fns), 'two' 11-14, 'three' 16-19 — extract the largest as one.rs"));
    assert!(!found(&r, "small.rs").qualifies);
    assert_eq!((r.totals.banners, r.totals.files_with_banners, r.totals.banner_hits, r.totals.banner_below_percentile), (5, 2, 0, 1));
    let min_size_percentile = 50.0;
    assert_eq!(analyze(&sides, &ranks(&sides, min_size_percentile), &cfg).totals.banner_hits, 1);
    cfg.banners.min_section_lines = 9;
    assert!(!found(&analyze(&sides, &ranks(&sides, min_size_percentile), &cfg), "big.rs").qualifies);
}

#[test]
fn the_last_file_of_a_path_is_the_one_reported() {
    let cfg = Cfg::default();
    let files = [file("a.rs", Language::Rust, "// ==== one ====\nfn a() {}\n"), file("b.rs", Language::Rust, "fn b() {}\n"), file("a.rs", Language::Rust, "fn a() {}\n")];
    let sides: Vec<FileSide> = files.iter().map(|f| side_with(f, &cfg, &MetricsCfg::default())).collect();
    let r = analyze(&sides, &ranks(&sides, 50.0), &cfg);
    assert_eq!(r.files.iter().map(|f| f.0.as_str()).collect::<Vec<_>>(), vec!["a.rs", "b.rs"]);
    assert_eq!((found(&r, "a.rs").banners, r.totals.banners, r.totals.files), (0, 1, 3));
}

fn phased_rust() -> String {
    let pad = "        if a > 1 { b += 1; }\n".repeat(8);
    format!(
        "fn work(a: u8, mut b: u8) -> u8 {{\n    let mut out = 0;\n    let tmp = 3;\n    // ── step 1: gather ──\n    let seen = a;\n{pad}    out += seen;\n    // ── step 2: reduce ──\n    let seen = b;\n{pad}    out += seen + tmp;\n    match a {{\n        // ── arm banner: depth 1 ──\n        1 => {{ out += 1; }}\n        _ => {{}}\n    }}\n    let cb = |z: u8| {{\n        // ── inside a closure: another scope ──\n        z\n    }};\n    // ── step 3: finish ──\n{pad}    out + tmp + cb(b)\n}}\n"
    )
}

#[test]
fn rust_phases_span_to_the_next_label_estimate_cognitive_and_find_shared_locals() {
    let m = MetricsCfg { cognitive_hard: 5, ..MetricsCfg::default() };
    let mut cfg = Cfg::default();
    cfg.phases.min_span_lines = 10;
    cfg.phases.min_phase_lines = 3;
    let f = file("w.rs", Language::Rust, &phased_rust());
    let s = side_with(&f, &cfg, &m);
    assert_eq!(s.units.len(), 1);
    let u = &s.units[0];
    let got: Vec<(&str, usize, usize, usize, Option<u32>)> = u.phases.iter().map(|p| (p.label.as_str(), p.start, p.end, p.lines, p.est_cognitive)).collect();
    // 4 phases: three at the body and the match-arm banner one level below (the closure's
    // banner is another scope). Each `if` is +1 at nesting 0.
    // step 2 runs to the line before step 3 (the arm banner is in the match block, not the
    // body); the arm banner runs to its block's end; step 3 to the body's closing brace.
    assert_eq!(got, vec![("step 1", 4, 14, 11, Some(8)), ("step 2", 15, 34, 20, Some(9)), ("arm banner", 27, 30, 4, Some(0)), ("step 3", 35, 45, 11, Some(8))], "{got:?}");
    // `out` and `tmp` are bound before every phase and read in >= 2; `seen` is re-bound in
    // each phase that reads it; `a`/`b` are parameters read in several phases.
    assert_eq!(u.shared_locals, vec!["a", "b", "out", "tmp"]);
    assert_eq!(u.phases[0].shared_locals, vec!["a", "b", "out"]);
    assert_eq!(u.reason, "work (lines 1-45, cognitive 25) already labels 4 phases: step 1 4-14, step 2 15-34, arm banner 27-30, step 3 35-45 — extract each as a helper (est. cognitive 8 / 9 / 0 / 8; 4 locals shared: a, b, out, tmp)");
    assert_eq!(s.phase_comments, 4);
}

#[test]
fn phase_floors_depth_and_the_cognitive_gate_drop_units() {
    let f = file("w.rs", Language::Rust, &phased_rust());
    let m = MetricsCfg { cognitive_hard: 5, ..MetricsCfg::default() };
    // The arm banner is 4 lines: min_phase_lines = 8 drops the unit; max_depth = 0 hides it.
    let mut cfg = Cfg::default();
    cfg.phases.min_span_lines = 10;
    cfg.phases.min_phase_lines = 8;
    assert!(side_with(&f, &cfg, &m).units.is_empty());
    cfg.phases.max_depth = 0;
    let s = side_with(&f, &cfg, &m);
    assert_eq!(s.units[0].phases.iter().map(|p| p.label.as_str()).collect::<Vec<_>>(), vec!["step 1", "step 2", "step 3"]);
    assert_eq!(s.units[0].phases[1].end, 34, "step 2 runs to the line before step 3");
    // Unit cognitive below the floor: nothing; the floor follows cognitive_hard when unset.
    cfg.phases.cross_with_cognitive_min = Some(40);
    assert!(side_with(&f, &cfg, &m).units.is_empty());
    cfg.phases.cross_with_cognitive_min = None;
    assert!(side_with(&f, &cfg, &MetricsCfg { cognitive_hard: 30, ..MetricsCfg::default() }).units.is_empty());
    // Span floor and phase count floor.
    cfg.phases.min_span_lines = 100;
    assert!(side_with(&f, &cfg, &m).units.is_empty());
    cfg.phases.min_span_lines = 10;
    cfg.phases.min_phases = 4;
    assert!(side_with(&f, &cfg, &m).units.is_empty());
    // No estimate when the knob is off.
    cfg.phases.min_phases = 2;
    cfg.phases.estimate_cognitive = false;
    let s = side_with(&f, &cfg, &m);
    assert!(s.units[0].phases.iter().all(|p| p.est_cognitive.is_none()));
    assert!(s.units[0].reason.ends_with("— extract each as a helper (4 locals shared: a, b, out, tmp)"), "{}", s.units[0].reason);
    cfg.phases.max_shared_locals_named = 2;
    assert!(side_with(&f, &cfg, &m).units[0].reason.ends_with("(4 locals shared: a, b, +2 more)"));
}

#[test]
fn prose_dashes_and_ordinals_are_not_phases_and_test_modules_are_skipped() {
    let pad = "        if a > 1 { b += 1; }\n".repeat(8);
    let body = format!("    // --flag prose is not a phase\n    // == neither is this\n    // Finally, nor this\n    // 1) numbered\n{pad}    // Step 2 numbered word\n{pad}    b\n");
    let src = format!("fn f(a: u8, mut b: u8) -> u8 {{\n{body}}}\n#[cfg(test)]\nmod tests {{\n    fn t(a: u8, mut b: u8) -> u8 {{\n{body}    }}\n}}\n");
    let f = file("p.rs", Language::Rust, &src);
    let m = MetricsCfg { cognitive_hard: 5, ..MetricsCfg::default() };
    let mut cfg = Cfg::default();
    cfg.phases.min_span_lines = 10;
    let s = side_with(&f, &cfg, &m);
    assert_eq!(s.units.iter().map(|u| u.unit.as_str()).collect::<Vec<_>>(), vec!["f"]);
    assert_eq!(s.units[0].phases.iter().map(|p| p.label.as_str()).collect::<Vec<_>>(), vec!["1) numbered", "Step 2 numbered word"]);
    cfg.phases.skip_test_modules = false;
    assert_eq!(side_with(&f, &cfg, &m).units.len(), 2);
}

#[test]
fn python_and_typescript_phases_use_their_own_blocks_and_binders() {
    let pad = "        if a > 1:\n            b += 1\n".repeat(4);
    let py = format!("def work(a, b):\n    out = 0\n    # ── phase 1 ──\n{pad}    out += a\n    # phase 2: second\n{pad}    out += b\n    return out\n");
    let m = MetricsCfg { cognitive_hard: 4, ..MetricsCfg::default() };
    let mut cfg = Cfg::default();
    cfg.phases.min_span_lines = 10;
    cfg.phases.min_phase_lines = 3;
    let s = side_with(&file("w.py", Language::Python, &py), &cfg, &m);
    assert_eq!(s.units.len(), 1);
    assert_eq!(s.units[0].phases.iter().map(|p| (p.label.as_str(), p.start, p.end, p.est_cognitive)).collect::<Vec<_>>(), vec![("phase 1", 3, 12, Some(4)), ("phase 2", 13, 23, Some(4))]);
    assert_eq!(s.units[0].shared_locals, vec!["a", "b", "out"]);
    let pad = "    if (a > 1) { b += 1; }\n".repeat(4);
    let ts = format!("function work(a: number, b: number) {{\n  let out = 0;\n  // step 1\n{pad}  out += a;\n  switch (a) {{\n    // 2. in the switch body\n    case 1: out += 1; break;\n{pad}  }}\n  return out;\n}}\n");
    let s = side_with(&file("w.ts", Language::TypeScript, &ts), &cfg, &m);
    assert_eq!(s.units.len(), 1);
    // The switch-body phase sits one level below the body and ends with the switch.
    assert_eq!(s.units[0].phases.iter().map(|p| (p.label.as_str(), p.start, p.end)).collect::<Vec<_>>(), vec![("step 1", 3, 18), ("2. in the switch body", 10, 16)]);
}

#[test]
fn render_lists_hits_and_says_none() {
    let cfg = Cfg::default();
    let text = render(&analyze(&vec![], &vec![], &cfg), 10, &cfg, "75");
    assert!(text.contains("BANNERS") && text.contains("PHASES") && text.matches("  none\n").count() == 2, "{text}");
}

#[test]
fn a_mod_file_is_named_by_its_directory_and_constructors_are_not_locals() {
    let secs = vec![Section { name: "The walk".into(), start: 2, end: 300, lines: 299, functions: 3 }, Section { name: "x".into(), start: 302, end: 310, lines: 9, functions: 0 }];
    assert!(banner_reason("src/dead/mod.rs", &secs).starts_with("dead/mod.rs is cut into 2 labelled sections: 'The walk' 2-300 (299 lines, 3 fns), 'x' 302-310 — extract the largest as walk.rs"), "{}", banner_reason("src/dead/mod.rs", &secs));
    assert!(banner_reason("pkg/__init__.py", &secs).starts_with("pkg/__init__.py is cut"));
    assert!(banner_reason("a/b/index.ts", &secs).ends_with("walk.ts"));
    let pad = "        if a > 1 { b += 1; }\n".repeat(8);
    let src = format!("fn f(a: u8, mut b: u8) -> u8 {{\n    let Some(fact) = Some(a) else {{ return 0 }};\n    // ── step 1 ──\n{pad}    b += fact;\n    // ── step 2 ──\n{pad}    b + fact\n}}\n");
    let mut cfg = Cfg::default();
    cfg.phases.min_span_lines = 10;
    let s = side_with(&file("c.rs", Language::Rust, &src), &cfg, &MetricsCfg { cognitive_hard: 5, ..MetricsCfg::default() });
    assert_eq!(s.units[0].shared_locals, vec!["a", "b", "fact"]);
}

#[test]
fn slugs_drop_the_article_and_keep_two_words() {
    assert_eq!(slug("The ladder"), "ladder");
    assert_eq!(slug("The ladder's value types"), "ladder_value");
    assert_eq!(slug("the clock, read from the snapshot"), "clock_read");
    assert_eq!(slug("drop"), "drop");
    assert_eq!(slug("A"), "a");
    assert_eq!(slug("---"), "section");
}

#[test]
fn non_blank_lines_are_counted_without_their_line_feeds() {
    let src = "a\n\n  \t\nb\n c";
    let li = LineIndex::new(src.as_bytes());
    assert_eq!(li.count(), 5);
    assert_eq!((li.non_blank(src.as_bytes(), 1, 5), li.non_blank(src.as_bytes(), 2, 3), li.non_blank(src.as_bytes(), 4, 9)), (3, 0, 2));
    assert_eq!((li.line_of(0), li.line_of(1), li.line_of(2), li.line_of(7), li.line_of(1000)), (1, 1, 2, 4, 5));
}

#[test]
fn sections_never_overlap() {
    let src = "// ==== one ====\nfn a() {}\n// ==== two ====\n// ==== three ====\nfn b() {}\n/* ==== four ==== */ /* ==== five ==== */\nfn c() {}\n";
    let mut cfg = Cfg::default();
    cfg.banners.pair_gap = 0;
    let s = side_with(&file("a.rs", Language::Rust, src), &cfg, &MetricsCfg::default());
    let got: Vec<(&str, usize, usize, usize)> = s.sections.iter().map(|x| (x.name.as_str(), x.start, x.end, x.lines)).collect();
    assert_eq!(got, vec![("one", 2, 2, 1), ("two", 4, 3, 0), ("three", 5, 5, 1), ("four", 7, 7, 1)]);
    for w in s.sections.windows(2) {
        assert!(w[0].end < w[1].start);
    }
}

#[test]
fn what_the_patterns_caught_decides_the_title() {
    let b = Banners::default();
    let some = |s: &str| Some(Some(s.to_string()));
    assert_eq!(titled(&b, "x", some("── The title ──"), None), Some(Some("The title".to_string())));
    assert_eq!(titled(&b, "x", some("──"), None), Some(None));
    assert_eq!(titled(&b, "x", None, some("short ==")), Some(Some("short".to_string())));
    assert_eq!(titled(&b, "x", None, some("==")), None);
    assert_eq!(titled(&b, "x", None, None), None);
    assert_eq!(titled(&b, "#region x", some("The title"), None), None);
    assert!(is_skipped("// #region x", &b.skip_markers) && !is_skipped("// x", &b.skip_markers));
    assert_eq!(rule_class("a-]"), "[a\\-\\]]");
}

#[test]
fn lines_are_counted_as_a_text_counts_them() {
    for text in ["", "a", "a\n", "a\nb", "a\r\nb\n", "\n\n", "é\nü", "─\n─"] {
        assert_eq!(LineIndex::new(text.as_bytes()).count(), text.lines().count(), "{text:?}");
    }
    // A section reaches the end of a file, line feed or not.
    let text = "// ── One ──\nfn a() {}\n// ── Two ──\nfn b() {}\nfn c() {}";
    let ends = |s: &str| -> Vec<usize> { side(&file("a.rs", Language::Rust, s)).sections.iter().map(|x| x.end).collect() };
    assert_eq!(ends(text), vec![2, 5]);
    assert_eq!(ends(&format!("{text}\n")), vec![2, 5]);
    // Lines of one text, looked up in a longer one.
    let li = LineIndex::new(b"a\nb\n");
    assert_eq!(li.non_blank(b"  c\nd", 1, 3), 2);
}
