use scry::config::Fallback as Cfg;
use scry::fallback::reasons::{count_parse_defaults, file_reasons, join_and, unit_reason, Exempt};
use scry::fallback::sites::{bare_name, unit_sites, SiteKind};
use scry::lang::Language;
use scry::regions::{contains, test_regions};
use scry::tree::SyntaxTree;
use scry::units::FunctionMetrics;

/// The functions and methods of a source, each with its fallback sites; none in test regions.
fn units(_path: &str, lang: Language, src: &str, cfg: &Cfg) -> Vec<FunctionMetrics> {
    let t = SyntaxTree::parse(lang, src).unwrap();
    let regions = if matches!(lang, Language::Rust) { test_regions(&t) } else { vec![] };
    let is_unit = |i: &usize| matches!(t.nodes[*i].kind.as_str(), "function_item" | "function_definition" | "function_declaration");
    let nested: Vec<usize> = (0..t.nodes.len()).filter(is_unit).collect();
    let field = |i: usize, f: &str| t.nodes[i].children.iter().find(|c| t.nodes[**c].field == f).map(|c| t.nodes[*c].text.clone());
    let mut out = vec![];
    for &i in &nested {
        let mut name = field(i, "name").unwrap();
        let mut at = t.nodes[i].parent;
        while let Some(p) = at {
            match t.nodes[p].kind.as_str() {
                "impl_item" => name = format!("{}.{name}", field(p, "type").unwrap()),
                "class_definition" => name = format!("{}.{name}", field(p, "name").unwrap()),
                _ => {}
            }
            at = t.nodes[p].parent;
        }
        let n = &t.nodes[i];
        let in_test = contains(&regions, n.start);
        let fallback_sites = if in_test { vec![] } else { unit_sites(&t, i, &name, lang, &nested, cfg) };
        out.push(FunctionMetrics {
            name,
            start_line: n.line,
            end_line: n.end_line,
            lines: n.end_line - n.line + 1,
            cognitive: 0,
            in_test,
            parse_defaults: count_parse_defaults(&fallback_sites),
            fallback_sites,
        });
    }
    out
}

/// (line, kind, default, transform, binding)
type Row<'a> = (usize, SiteKind, &'a str, Option<&'a str>, Option<&'a str>);

fn rows(u: &FunctionMetrics) -> Vec<Row<'_>> {
    u.fallback_sites.iter().map(|s| (s.line, s.kind, s.default.as_str(), s.transform.as_deref(), s.binding.as_deref())).collect()
}

#[test]
fn rust_parse_defaults_need_a_transform_in_the_chain_and_a_literal_default() {
    let cfg = Cfg::default();
    let src = "\
fn parse(header: &str) -> (u64, String) {
    let mut fields = header.split('\\x02');
    let (hash, author, ts, subject) = (
        fields.next().unwrap_or(\"\"),
        fields.next().unwrap_or(\"\"),
        fields.next().and_then(|t| t.parse::<i64>().ok()).unwrap_or(0),
        fields.next().unwrap_or(\"\"),
    );
    let n: u8 = s.parse().ok().unwrap_or(0);
    let d = lines.next().unwrap_or_default();
    let v = opt.unwrap_or_else(Vec::new);
    let w = words.next().unwrap_or_else(|| String::new());
    let z = self.x.unwrap_or(0);
    let g = m.get(&k).copied().unwrap_or(&0);
    let o = a.unwrap_or(b.next().unwrap_or(\"\"));
    let q = s.strip_prefix(\"x\").unwrap_or(s);
    let r = s.parse::<u8>().ok()?;
    let e = it.next().unwrap_or(());
    *m.entry(k).or_default() += 1;
    (0, String::new())
}
";
    let f = &units("a.rs", Language::Rust, src, &cfg)[0];
    let expect = vec![
        (4, SiteKind::ParseDefault, "\"\"", Some("next"), Some("hash")),
        (5, SiteKind::ParseDefault, "\"\"", Some("next"), Some("author")),
        (6, SiteKind::ParseDefault, "0", Some("next"), Some("ts")),
        (7, SiteKind::ParseDefault, "\"\"", Some("next"), Some("subject")),
        // `.ok()` under an `unwrap_or` is not a site of its own: one site, at the outer call.
        (9, SiteKind::ParseDefault, "0", Some("parse"), Some("n")),
        (10, SiteKind::ParseDefault, "Default::default()", Some("next"), Some("d")),
        // A constructor path or a closure returning one is a literal default; no transform.
        (11, SiteKind::Fallback, "Vec::new()", None, Some("v")),
        (12, SiteKind::ParseDefault, "String::new()", Some("next"), Some("w")),
        // A struct field has no call in its chain.
        (13, SiteKind::Fallback, "0", None, Some("z")),
        (14, SiteKind::ParseDefault, "0", Some("get"), Some("g")),
        // The outer default is not a literal; the inner one is a site of its own.
        (15, SiteKind::Fallback, "b.next().unwrap_or(\"\")", None, Some("o")),
        (15, SiteKind::ParseDefault, "\"\"", Some("next"), Some("o")),
        (16, SiteKind::Fallback, "s", Some("strip_prefix"), Some("q")),
        // `.ok()?` is a fallback with no default; the transform is noted whatever the kind.
        (17, SiteKind::Fallback, "?", Some("parse"), Some("r")),
        (18, SiteKind::ParseDefault, "()", Some("next"), Some("e")),
        // A site inside an assignment's target has no binding.
        (19, SiteKind::Fallback, "Default::default()", None, None),
    ];
    assert_eq!(rows(f), expect);
    assert_eq!((f.parse_defaults, f.fallback_sites.len()), (10, 16));
    let r = unit_reason(f, &cfg, &Exempt::new(&cfg)).unwrap();
    assert_eq!(r, "parse swallows 10 parse failures with literal defaults (lines 4, 5, 6, 7, 9, 10, 12, 14, 15, 18): a malformed line becomes hash \"\", author \"\", ts 0, subject \"\", n 0, d Default::default(), w String::new(), g 0, o \"\" and e ()");
}

#[test]
fn reason_needs_min_sites_and_skips_exempt_names_and_test_units() {
    let mut cfg = Cfg::default();
    let src = "\
fn one(s: &str) -> u8 { s.parse().unwrap_or(0) }
fn from_env(s: &str) -> (u8, u8) { (s.parse().unwrap_or(0), s.parse().unwrap_or(1)) }
impl D { fn default_two(s: &str) -> (u8, u8) { (s.parse().unwrap_or(0), s.parse().unwrap_or(1)) } }
fn two(s: &str) -> (u8, u8) { (s.parse().unwrap_or(0), s.parse().unwrap_or(1)) }
#[cfg(test)]
mod tests {
    fn t(s: &str) -> (u8, u8) { (s.parse().unwrap_or(0), s.parse().unwrap_or(1)) }
}
";
    let fs = units("a.rs", Language::Rust, src, &cfg);
    let exempt = Exempt::new(&cfg);
    let by: Vec<(&str, usize, bool)> = fs.iter().map(|f| (f.name.as_str(), f.parse_defaults, unit_reason(f, &cfg, &exempt).is_some())).collect();
    assert_eq!(by, vec![("one", 1, false), ("from_env", 2, false), ("D.default_two", 2, false), ("two", 2, true), ("t", 0, false)], "{by:?}");
    assert_eq!(unit_reason(&fs[3], &cfg, &exempt).unwrap(), "two swallows 2 parse failures with literal defaults (lines 4, 4): a malformed line becomes 0 and 1");
    cfg.min_sites = 1;
    assert_eq!(unit_reason(&fs[0], &cfg, &exempt).unwrap(), "one swallows 1 parse failure with literal defaults (lines 1): a malformed line becomes 0");
    // Per-file lines: most sites first, capped, the rest counted.
    cfg.max_reported_per_file = 1;
    let prod: Vec<&FunctionMetrics> = fs.iter().filter(|f| !f.in_test).collect();
    let lines = file_reasons(&prod, &cfg, &exempt);
    assert_eq!(lines.len(), 2, "{lines:?}");
    assert!(lines[0].starts_with("two swallows 2"), "{lines:?}");
    assert_eq!(lines[1], "+1 more function(s) swallow 1+ parse failures with literal defaults");
}

#[test]
fn python_getters_getattr_and_or_with_literals_and_no_or_in_init() {
    let cfg = Cfg::default();
    let src = "\
def f(line, d, o):
    a = line.split(':')[1] or ''
    b = d.get('k', 0)
    c = getattr(o, 'k', None)
    e = int(line.partition('=')[2] or 0)
    g = d.get('k', other)
    h = line.strip() or None
    i = d.get('k')
    return dict(x=line.split(',')[0] or '')
class K:
    def __init__(self, x=None):
        self.x = x or []
        self.y = str(x).split('.')[0] or ''
";
    let fs = units("a.py", Language::Python, src, &cfg);
    let expect = vec![
        (2, SiteKind::ParseDefault, "''", Some("split"), Some("a")),
        (3, SiteKind::Fallback, "0", None, Some("b")),
        (4, SiteKind::Fallback, "None", None, Some("c")),
        (5, SiteKind::ParseDefault, "0", Some("partition"), Some("e")),
        (7, SiteKind::Fallback, "None", None, Some("h")),
        (9, SiteKind::ParseDefault, "''", Some("split"), Some("x")),
    ];
    assert_eq!(rows(&fs[0]), expect);
    assert_eq!(fs[0].parse_defaults, 3);
    // `or` never counts in `__init__`, and the name is exempt from the reason anyway.
    assert_eq!(fs[1].name, "K.__init__");
    assert!(fs[1].fallback_sites.is_empty());
}

#[test]
fn ts_nullish_with_literal_and_the_or_and_optional_chain_knobs() {
    let mut cfg = Cfg::default();
    let src = "\
function f(line: string, obj: any) {
  const a = line.split(':')[1] ?? '';
  const b = parseInt(line, 10) ?? 0;
  const c = obj.x ?? null;
  const d = line.match(/x/)?.[1] ?? '';
  const e = obj.y || '';
  const g = obj?.z;
  const h = line.split(':')[0] ?? other;
  return { k: JSON.parse(line) ?? {} };
}
";
    let f = &units("a.ts", Language::TypeScript, src, &cfg)[0];
    let expect = vec![
        (2, SiteKind::ParseDefault, "''", Some("split"), Some("a")),
        (3, SiteKind::ParseDefault, "0", Some("parseInt"), Some("b")),
        (4, SiteKind::Fallback, "null", None, Some("c")),
        (5, SiteKind::ParseDefault, "''", Some("match"), Some("d")),
        (9, SiteKind::ParseDefault, "{}", Some("parse"), Some("k")),
    ];
    assert_eq!(rows(f), expect);
    cfg.ts_count_or = true;
    cfg.count_optional_chain = true;
    let f = &units("a.ts", Language::TypeScript, src, &cfg)[0];
    let extra: Vec<(usize, SiteKind, &str)> = f.fallback_sites.iter().filter(|s| (5..=7).contains(&s.line)).map(|s| (s.line, s.kind, s.default.as_str())).collect();
    assert_eq!(extra, vec![(5, SiteKind::ParseDefault, "''"), (5, SiteKind::Fallback, "?."), (6, SiteKind::Fallback, "''"), (7, SiteKind::Fallback, "?.")], "{extra:?}");
}

#[test]
fn nested_units_keep_their_own_sites_and_arguments_are_not_the_chain() {
    let cfg = Cfg::default();
    let src = "\
fn outer(s: &str) -> u8 {
    fn inner(t: &str) -> u8 { t.parse().unwrap_or(0) }
    let c = |t: &str| t.parse().unwrap_or(0);
    let x = a.unwrap_or(s.next().len());
    inner(s) + c(s)
}
";
    let fs = units("a.rs", Language::Rust, src, &cfg);
    let by: Vec<(&str, usize, usize)> = fs.iter().map(|f| (f.name.as_str(), f.parse_defaults, f.fallback_sites.len())).collect();
    // The closure's site folds into `outer`; `inner` keeps its own; `next` in an argument
    // is not the receiver chain.
    assert_eq!(by, vec![("outer", 1, 2), ("inner", 1, 1)], "{by:?}");
}

#[test]
fn names_and_lists_read_as_written() {
    assert_eq!((bare_name("Repo.discover").as_str(), bare_name("f").as_str(), bare_name("a.").as_str()), ("discover", "f", ""));
    let v = |l: &[&str]| l.iter().map(|s| s.to_string()).collect::<Vec<_>>();
    assert_eq!((join_and(&v(&[])), join_and(&v(&["a"])), join_and(&v(&["a", "b", "c"]))), (String::new(), "a".to_string(), "a, b and c".to_string()));
}

#[test]
fn a_pattern_that_does_not_compile_exempts_nothing() {
    let cfg = Cfg { exempt_fn_patterns: vec!["(".into(), "^two$".into()], ..Cfg::default() };
    let exempt = Exempt::new(&cfg);
    assert!(!exempt.hits("(") && exempt.hits("two") && !exempt.hits("TWO"));
}
