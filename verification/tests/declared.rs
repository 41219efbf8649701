use scry::config::{Declared as Cfg, Discover};
use scry::declared::features::FeatureState;
use scry::declared::history::{age_in_days, newest, oldest, Answer, History};
use scry::declared::manifest::parse_cargo;
use scry::declared::render::{render, render_section};
use scry::declared::report::DeclaredReport;
use scry::declared::side::{index_all, FileSide, Walker};
use scry::declared::sources::{analyze, aux_paths, is_read, questions, AuxFile, MAX_BYTES};
use scry::discover::{classify, SourceFile};
use scry::lang::Language;

fn src(path: &str, content: &str) -> SourceFile {
    let lang = Language::from_path(path).unwrap();
    let kind = classify(path, content, content.lines().count(), false, &Discover::default());
    SourceFile { path: path.into(), lang, kind, lines: content.lines().count(), bytes: content.len(), content: content.into() }
}

fn side(path: &str, content: &str) -> FileSide {
    Walker::new(&Cfg::default()).parse_side(&src(path, content), &Cfg::default())
}

/// A repository with the given files, no git.
fn repo(files: &[(&str, &str)]) -> Vec<(String, String)> {
    let mut out: Vec<(String, String)> = files.iter().map(|f| (f.0.to_string(), f.1.to_string())).collect();
    out.sort();
    out
}

fn read(root: &[(String, String)], cfg: &Cfg) -> (Vec<FileSide>, Vec<AuxFile>) {
    let files: Vec<SourceFile> = root.iter().filter(|f| Language::from_path(&f.0).is_some()).map(|f| src(&f.0, &f.1)).collect();
    let paths: Vec<String> = root.iter().map(|f| f.0.clone()).collect();
    let aux = aux_paths(&paths, cfg)
        .into_iter()
        .map(|p| {
            let text = root.iter().find(|f| f.0 == p).map(|f| f.1.clone());
            AuxFile { path: p, text }
        })
        .collect();
    (index_all(&files, cfg), aux)
}

fn run(root: &[(String, String)], cfg: &Cfg) -> DeclaredReport {
    let (sides, aux) = read(root, cfg);
    analyze(&sides, &aux, &None, cfg)
}

fn percent(r: &DeclaredReport) -> String {
    format!("{:.1}", if r.totals.deps == 0 { 0.0 } else { 100.0 * r.totals.orphans as f64 / r.totals.deps as f64 })
}

fn times(list: &[String], s: &str) -> usize {
    list.iter().filter(|x| *x == s).count()
}

#[test]
fn crate_references_come_from_every_path_form() {
    let s = side("src/a.rs", r#"
use foo::bar::{a, b as c, d::*};
use {x::y, z};
use ::log::debug;
extern crate serde;
#[derive(clap::Parser)]
struct P;
fn f() -> regex::Regex { let v = anyhow::anyhow!("{}", other::X); lazy_static! { static ref R: rx::Re = rx::Re::new(); } a::b::c(); v }
macro_rules! d { ($($t:tt)*) => (::log2::debug!($($t)*);) }
#[cfg(test)]
mod tests { fn t() { tempfile::tempdir(); } }
"#);
    for name in ["foo", "x", "z", "log", "log2", "serde", "clap", "regex", "anyhow", "other", "rx", "a"] {
        assert!(s.crate_refs_of(name).prod > 0, "{name}: {:?}", s.crate_refs);
    }
    // `b` in `a::b::c` is not a crate; `bar` inside the use path is not either.
    assert!(s.crate_refs_of("b").total() == 0 && s.crate_refs_of("bar").total() == 0, "{:?}", s.crate_refs);
    let t = s.crate_refs_of("tempfile");
    assert_eq!((t.prod, t.test), (0, 1));
}

#[test]
fn feature_consumers_cfg_test_mods_and_lint_silence_are_collected() {
    let s = side("src/lib.rs", r#"
#![allow(warnings)]
#[cfg(feature = "alpha")]
fn a() {}
#[cfg(all(unix, not(feature = "beta")))]
fn b() { if cfg!(feature = "gamma") {} }
#[cfg(test)]
mod testutil;
#[cfg(test)]
mod tests { }
"#);
    assert_eq!(times(&s.feature_refs, "alpha"), 1);
    assert_eq!(times(&s.feature_refs, "beta"), 1);
    assert_eq!(times(&s.feature_refs, "gamma"), 1);
    assert_eq!(s.cfg_test_mods, vec!["testutil"]);
    assert_eq!(s.lint_silenced.as_ref().map(|(l, _)| *l), Some(2));
    let b = side("build.rs", r#"fn main() { if std::env::var("CARGO_FEATURE_USE_JEMALLOC").is_ok() { println!("cargo:rustc-cfg=feature=\"fast\""); } }"#);
    assert!(times(&b.build_feature_env, "USE_JEMALLOC") > 0);
    assert_eq!(times(&b.feature_refs, "fast"), 1);
}

#[test]
fn config_structs_fields_and_reads_are_collected_with_the_exclusions() {
    let s = side("src/config.rs", r#"
#[derive(Debug, Clone, Deserialize, Serialize)]
#[serde(default, deny_unknown_fields)]
pub struct Config { pub ci: CiCfg, #[serde(rename = "lvl")] pub level: u8, #[serde(skip)] pub hidden: u8, pub names: Vec<Name>, pub port: u16 }
impl Config { pub fn render(&self) -> String { format!("port = {}", self.port) } fn other(&self) -> u8 { self.hidden } }
#[derive(Deserialize)]
pub struct CiCfg { pub provider: String, pub homerunner: Option<HomerunnerCfg> }
impl Default for Config { fn default() -> Self { Self { ci: CiCfg::default(), level: self.level, hidden: 0 } } }
impl Serialize for Config { fn serialize(&self) { self.level; self.ci.provider } }
pub fn load(text: &str) -> Config { let cfg: Config = toml::from_str(text).unwrap(); let Config { level, .. } = &cfg; cfg.ci.provider.len(); cfg.validate(); cfg }
pub fn show(c: &Config) { println!("{} {}", c.level, c.names.len()); }
#[cfg(test)]
mod tests { fn t() { let c = Config::default(); c.ci.homerunner; } }
"#);
    let names: Vec<(&str, &str, bool, Option<&str>)> = s.structs[0].fields.iter().map(|f| (f.name.as_str(), f.key.as_str(), f.skip, f.ty.as_deref())).collect();
    assert_eq!(names, vec![("ci", "ci", false, Some("CiCfg")), ("level", "lvl", false, None), ("hidden", "hidden", true, None), ("names", "names", false, Some("Name")), ("port", "port", false, None)]);
    assert!(s.structs[0].deny_unknown_fields && !s.structs[1].deny_unknown_fields);
    assert_eq!(s.structs[1].fields[1].ty.as_deref(), Some("HomerunnerCfg"));
    assert_eq!(s.consumed_types.iter().find(|c| c.0 == "Config").map(|c| c.1.as_str()), Some("toml"));
    // Reads: `level` twice (the pattern and the `println!` token tree; the Default and Serialize
    // bodies are excluded), `provider` once in production, `homerunner` only in the test module,
    // `validate` and `len` never (method calls, in and out of a macro body).
    assert_eq!((s.field_reads_of("level").prod, s.field_reads_of("level").test), (2, 0));
    assert_eq!(s.field_reads_of("provider").prod, 1);
    assert_eq!(s.field_reads_of("names").prod, 1);
    assert!(s.field_reads_of("len").total() == 0);
    // `render` is the write side: its read of `port` is not a read; `other` is an ordinary method.
    assert!(s.field_reads_of("port").total() == 0 && s.field_reads_of("hidden").prod == 1);
    assert_eq!((s.field_reads_of("homerunner").prod, s.field_reads_of("homerunner").test), (0, 1));
    assert!(s.field_reads_of("validate").total() == 0);
    assert!(s.field_reads_of("ci").total() > 0);
}

#[test]
fn manifest_parse_keys_lines_sections_and_features() {
    let text = r#"[package]
name = "k"

[[bin]]
name = "k"
path = "src/main.rs"
required-features = ["cli"]

[features]
default = []
# v0.2. Moves into default when ci.rs lands.
ci-homerunner = ["dep:rusqlite"]
cli = []

[dependencies]
anyhow = "1"
pulldown-cmark = { version = "0.13", default-features = false }
rusqlite = { version = "0.40", optional = true }
memmap = { package = "memmap2", version = "0.9" }

[dependencies.clap]
version = "4"

[target.'cfg(unix)'.dependencies]
libc = "0.2"

[dev-dependencies]
tempfile = "3"
"#;
    let m = parse_cargo("Cargo.toml", text).unwrap();
    let dep = |n: &str| m.deps.iter().find(|d| d.name == n).unwrap();
    assert_eq!((dep("pulldown-cmark").ident.as_str(), dep("pulldown-cmark").line), ("pulldown_cmark", 17));
    assert!(dep("rusqlite").optional);
    assert_eq!(dep("memmap").package.as_deref(), Some("memmap2"));
    assert_eq!(dep("clap").line, 21);
    assert_eq!((dep("libc").section.as_str(), dep("libc").line), ("target.'cfg(unix)'.dependencies", 25));
    assert!(dep("tempfile").dev);
    assert!(m.has_bin);
    let f = m.features.iter().find(|f| f.name == "ci-homerunner").unwrap();
    assert_eq!((f.line, f.elements.clone()), (12, vec!["dep:rusqlite".to_string()]));
    assert_eq!(f.comment.as_ref().map(|(a, b, _)| (*a, *b)), Some((11, 11)));
    assert!(times(&m.consumers, "cli") > 0);
}

#[test]
fn orphans_dead_features_and_the_optional_dedupe() {
    let root = repo(&[
        ("Cargo.toml", "[package]\nname = \"k\"\n\n[features]\ndefault = []\n# Moves into default when ci.rs lands.\nci-homerunner = [\"dep:rusqlite\"]\nnoop = []\nfwd = [\"serde/derive\"]\n\n[dependencies]\nanyhow = \"1\"\nserde = \"1\"\npulldown-cmark = \"0.13\"\nrusqlite = { version = \"0.40\", optional = true }\nopenssl = \"0.10\"\n\n[dev-dependencies]\ntempfile = \"3\"\n"),
        ("src/main.rs", "use anyhow::Result;\nfn main() -> Result<()> { serde::x(); Ok(()) }\n"),
        ("DESIGN.md", "# design\n\nCrates: **pulldown-cmark** for markdown rendering.\n"),
    ]);
    let r = run(&root, &Cfg::default());
    assert_eq!((r.totals.manifests, r.totals.deps, r.totals.checked_deps, r.totals.orphans), (1, 6, 4, 2));
    let names: Vec<&str> = r.orphans.iter().map(|o| o.name.as_str()).collect();
    assert_eq!(names, vec!["pulldown-cmark", "rusqlite"]);
    assert_eq!(r.orphans[0].line_text, "pulldown-cmark declared in Cargo.toml:14 and never imported by any src/ file; mentioned in DESIGN.md:3 - wire it or drop it");
    assert!(r.orphans[1].optional && r.orphans[1].gated_by == vec!["ci-homerunner"]);
    assert_eq!((r.totals.features, r.totals.dead_features, r.totals.noop_features), (3, 1, 1));
    assert_eq!(r.dead_features.len(), 1);
    assert_eq!(r.dead_features[0].line_text, "feature ci-homerunner (Cargo.toml:7) gates optional dep rusqlite (Cargo.toml:15) and nothing in src/ checks cfg(feature = \"ci-homerunner\"); never consumed; the comment at Cargo.toml:6 says 'Moves into default when ci.rs lands'");
    assert!(r.noop_features.is_empty() && r.notes.iter().any(|n| n.contains("1 no-op feature")), "{:?}", r.notes);
    assert!(r.notes.iter().any(|n| n == "1 dev-dependency not checked (check_dev_dependencies)"), "{:?}", r.notes);
    assert!(r.notes.iter().any(|n| n == "1 dep on the side-effect list not checked: openssl"), "{:?}", r.notes);
    // The text: rusqlite prints once, through the feature line, never as an orphan line.
    let text = render(&r, 20, &percent(&r));
    assert_eq!(text.matches("rusqlite").count(), 2, "{text}"); // the totals line and the feature line
    assert!(text.contains("  ORPHANED DEPS") && text.contains("\n  pulldown-cmark declared") && !text.contains("\n  rusqlite declared"), "{text}");
    // Knobs: noop features listed, bare dead features, dev deps checked.
    let all = Cfg { report_noop_features: true, check_dev_dependencies: true, ..Cfg::default() };
    let r = run(&root, &all);
    assert_eq!(r.noop_features.len(), 1);
    assert!(r.orphans.iter().any(|o| o.name == "tempfile"));
}

#[test]
fn feature_liveness_is_transitive_and_consumers_are_counted() {
    let root = repo(&[
        ("Cargo.toml", "[package]\nname = \"fd\"\n\n[[bin]]\nname = \"fd\"\npath = \"src/main.rs\"\n\n[features]\nuse-jemalloc = [\"tikv-jemallocator\"]\ncompletions = [\"clap_complete\"]\nbase = [\"use-jemalloc\"]\ndefault = [\"use-jemalloc\", \"completions\"]\nbare = [\"dep:redb\"]\nwrap = [\"bare\"]\n\n[dependencies]\nclap_complete = { version = \"4\", optional = true }\nredb = { version = \"4\", optional = true }\n\n[target.'cfg(unix)'.dependencies]\ntikv-jemallocator = { version = \"0.7\", optional = true }\n"),
        ("src/main.rs", "#[cfg(feature = \"use-jemalloc\")]\nuse tikv_jemallocator::Jemalloc;\nfn main() { clap_complete::generate(); }\n"),
        ("Makefile", "all:\n\tcargo build --features completions\n"),
    ]);
    let r = run(&root, &Cfg::default());
    let state = |n: &str| r.features.iter().find(|f| f.name == n).map(|f| (f.state, f.consumers, f.ci_files.clone())).unwrap();
    assert_eq!(state("use-jemalloc"), (FeatureState::Alive, 1, vec![]));
    // No cfg names `completions`, but its dep is imported: a feature gating a used dep is not dead.
    assert_eq!(state("completions"), (FeatureState::Alive, 0, vec!["Makefile".to_string()]));
    assert_eq!(state("base").0, FeatureState::Alive);
    assert_eq!(state("bare").0, FeatureState::Dead);
    assert_eq!(state("wrap").0, FeatureState::Dead);
    // `bare` gates the orphan redb and prints; `wrap` gates no dep and is suppressed by default.
    assert_eq!(r.dead_features.iter().map(|f| f.name.as_str()).collect::<Vec<_>>(), vec!["bare"]);
    assert!(r.notes.iter().any(|n| n.starts_with("1 dead feature gating no dependency suppressed")), "{:?}", r.notes);
    let r = run(&root, &Cfg { report_bare_dead_features: true, ..Cfg::default() });
    assert_eq!(r.dead_features.iter().map(|f| f.name.as_str()).collect::<Vec<_>>(), vec!["bare", "wrap"]);
    assert!(r.dead_features[1].line_text.starts_with("feature wrap (Cargo.toml:14) enables only the dead feature bare and nothing in src/ checks"), "{}", r.dead_features[1].line_text);
}

#[test]
fn scope_is_the_nearest_manifest_and_lint_silence_is_a_note() {
    let root = repo(&[
        ("Cargo.toml", "[package]\nname = \"rg\"\n[[bin]]\nname = \"rg\"\npath = \"crates/core/main.rs\"\n[dependencies]\ngrep = { path = \"crates/grep\", features = [\"pcre2\"] }\n"),
        ("crates/core/main.rs", "fn main() { grep::run(); }\n"),
        ("crates/grep/Cargo.toml", "[package]\nname = \"grep\"\n[features]\npcre2 = [\"dep:grep-pcre2\"]\n[dependencies]\nfst = \"0.4\"\ngrep-pcre2 = { version = \"1\", optional = true }\n"),
        ("crates/grep/src/lib.rs", "#![allow(warnings)]\npub fn run() {}\n"),
    ]);
    let r = run(&root, &Cfg::default());
    assert_eq!(r.orphans.iter().map(|o| (o.manifest.as_str(), o.name.as_str())).collect::<Vec<_>>(), vec![("crates/grep/Cargo.toml", "fst"), ("crates/grep/Cargo.toml", "grep-pcre2")]);
    assert_eq!(r.orphans[0].line_text, "fst declared in crates/grep/Cargo.toml:6 and never imported by any crates/grep/src/ file; the crate silences warnings (#![allow] at crates/grep/src/lib.rs:1) - wire it or drop it");
    // The root's `features = ["pcre2"]` on the path dep is printed, never a consumer.
    let f = r.features.iter().find(|f| f.name == "pcre2").unwrap();
    assert_eq!((f.state, f.enabled_by.clone()), (FeatureState::Dead, vec!["Cargo.toml".to_string()]));
    assert!(f.line_text.ends_with("; never consumed; enabled by Cargo.toml"), "{}", f.line_text);
    let r = run(&root, &Cfg { skip_lint_silenced_crates: true, ..Cfg::default() });
    assert!(r.orphans.is_empty() && r.notes.iter().any(|n| n.ends_with("(skipped)")), "{:?}", r.notes);
}

#[test]
fn workspace_deps_resolve_to_the_member_and_placement_is_a_knob() {
    let root = repo(&[
        ("Cargo.toml", "[workspace]\nmembers = [\"a\"]\n[workspace.dependencies]\nmemmap = { package = \"memmap2\", version = \"0.9\" }\ntempfile = \"3\"\n"),
        ("a/Cargo.toml", "[package]\nname = \"a\"\n[dependencies]\nmemmap = { workspace = true }\ntempfile.workspace = true\n"),
        ("a/src/lib.rs", "pub fn f() -> memmap::Mmap { todo!() }\n#[cfg(test)]\nmod tests { fn t() { tempfile::tempdir(); } }\n"),
    ]);
    let r = run(&root, &Cfg::default());
    assert!(r.orphans.is_empty());
    assert!(r.misplaced.is_empty());
    let r = run(&root, &Cfg { check_placement: true, ..Cfg::default() });
    assert_eq!(r.misplaced.len(), 1);
    assert_eq!(r.misplaced[0].line_text, "tempfile is declared in [dependencies] (a/Cargo.toml:5) but its only reference is in a #[cfg(test)] module in a/src/lib.rs - move it to [dev-dependencies]");
}

#[test]
fn unread_knobs_roll_up_to_the_section_with_docs_and_the_gates() {
    let config = r#"
#[derive(Deserialize)]
#[serde(default, deny_unknown_fields)]
pub struct Config { pub ci: CiCfg, pub level: u8, pub unused: u8 }
#[derive(Deserialize)]
#[serde(default, deny_unknown_fields)]
pub struct CiCfg { pub provider: String, pub homerunner: HomerunnerCfg }
#[derive(Deserialize)]
#[serde(default, deny_unknown_fields)]
pub struct HomerunnerCfg { pub bin: String, pub db: String, pub api: String }
impl Default for HomerunnerCfg { fn default() -> Self { Self { bin: String::new(), db: String::new(), api: String::new() } } }
pub fn load(t: &str) -> Config { let c: Config = toml::from_str(t).unwrap(); c }
"#;
    let main = "fn main() { let c = crate::config::load(\"\"); c.ci.provider; c.level; }\n#[cfg(test)]\nmod tests { fn t() { let c = crate::config::load(\"\"); c.unused; } }\n";
    let root = repo(&[
        ("Cargo.toml", "[package]\nname = \"k\"\n[[bin]]\nname = \"k\"\npath = \"src/main.rs\"\n"),
        ("src/config.rs", config),
        ("src/main.rs", main),
        ("docs/config.md", "# config\n\n```toml\n[ci]\nprovider = \"auto\"\n\n[ci.homerunner]\nbin = \"x\"\ndb = \"y\"\n```\n"),
    ]);
    let r = run(&root, &Cfg::default());
    assert_eq!((r.totals.config_structs, r.totals.knobs, r.totals.unread_knobs, r.totals.test_only_knobs), (3, 8, 4, 1));
    let lines: Vec<&str> = r.unread_knobs.iter().map(|k| k.line_text.as_str()).collect();
    assert_eq!(lines, vec![
        "Config.unused (src/config.rs:4) is read only by tests",
        "[ci.homerunner] (src/config.rs:7-10, 4 knobs: homerunner, bin, db, api) is deserialised from TOML under deny_unknown_fields and documented at docs/config.md:7-9, but no code reads any of them - the program accepts the section and ignores it",
    ]);
    assert_eq!(r.files.iter().find(|f| f.0 == "src/config.rs").unwrap().1.unread_knobs, vec![("Config.unused".to_string(), 4), ("ci.homerunner.homerunner".to_string(), 7)]);
    // A source literal in the config file names the source; with no read sibling and no doc the line is suppressed.
    let root2 = repo(&[
        ("Cargo.toml", "[package]\nname = \"k\"\n[[bin]]\nname = \"k\"\npath = \"src/main.rs\"\n"),
        ("src/config.rs", "pub const FILE: &str = \"k.toml\";\n#[derive(Deserialize)]\npub struct Config { pub a_knob: u8, pub b_knob: u8 }\n"),
        ("src/main.rs", "fn main() {}\n"),
    ]);
    let r = run(&root2, &Cfg::default());
    assert!(r.unread_knobs.is_empty() && r.notes.iter().any(|n| n.contains("require_sibling_read_or_doc")), "{:?}", r.notes);
    let r = run(&root2, &Cfg { require_sibling_read_or_doc: false, ..Cfg::default() });
    assert_eq!(r.unread_knobs[0].line_text, "Config (src/config.rs:2-3, 2 knobs: a_knob, b_knob) is deserialised from k.toml, but no code reads any of them - the program accepts the section and ignores it");
    // A lib-only crate is skipped unless the knobs are public API.
    let root3 = repo(&[
        ("Cargo.toml", "[package]\nname = \"k\"\n"),
        ("src/lib.rs", "#[derive(Deserialize)]\npub struct Options { pub knob_a: u8, pub knob_b: u8 }\npub fn f(o: &Options) -> u8 { o.knob_a }\n"),
    ]);
    let r = run(&root3, &Cfg::default());
    assert!(r.unread_knobs.is_empty() && r.notes.iter().any(|n| n.contains("require_bin_target")), "{:?}", r.notes);
    let r = run(&root3, &Cfg { config_is_public_api: true, ..Cfg::default() });
    assert_eq!(r.unread_knobs[0].line_text, "Options (src/lib.rs:1-2, 2 knobs) is deserialised from a config file, but no code reads knob_b (line 2) - the program accepts it and ignores it");
}

#[test]
fn short_field_names_skip_only_on_collision() {
    let root = repo(&[
        ("Cargo.toml", "[package]\nname = \"k\"\n[[bin]]\nname = \"k\"\npath = \"src/main.rs\"\n"),
        ("src/config.rs", "#[derive(Deserialize)]\npub struct Config { pub k: u8, pub id: u8, pub used: u8 }\n#[derive(Deserialize)]\npub struct Other { pub id: u8, pub read_it: u8 }\n"),
        ("src/main.rs", "fn main() { let c = load(); c.used; let o = other(); o.read_it; }\n"),
    ]);
    let r = run(&root, &Cfg { config_struct_regex: "(Config|Other)$".into(), ..Cfg::default() });
    // `id` is declared by both candidates: skipped; `k` is short but unique: reported.
    assert_eq!(r.unread_knobs.iter().map(|k| k.unread.clone()).collect::<Vec<_>>(), vec![vec!["k".to_string()]]);
}

#[test]
fn git_enrichment_reads_birth_age_commits_and_the_killing_commit() {
    let root = repo(&[("Cargo.toml", "[package]\nname = \"k\"\n[[bin]]\nname = \"k\"\npath = \"src/main.rs\"\n[features]\nci = [\"dep:rusqlite\"]\n[dependencies]\nold = \"1\"\nrusqlite = { version = \"1\", optional = true }\n"), ("src/main.rs", "#[cfg(feature = \"ci\")]\nfn c() {}\nfn main() { old::x(); }\n")]);
    // The use was dropped by the first of six later commits.
    let mut root = root;
    root[1].1 = "fn main() { let _ = 5; }\n".to_string();
    let (birth, first_drop, killed) = ("1a2b3c4".to_string(), "5d6e7f8", "9a8b7c6".to_string());
    let cfg = Cfg::default();
    let (sides, aux) = read(&root, &cfg);
    let lookups = questions(&sides, &aux, &cfg);
    assert_eq!(lookups.iter().map(|l| (l.feature, l.usage.as_str())).collect::<Vec<_>>(), vec![(false, "old::"), (true, "feature = \"ci\"")]);
    assert!(lookups.iter().all(|l| l.manifest == "Cargo.toml"));
    let history = || {
        let answers = lookups
            .iter()
            .map(|l| Answer {
                birth: Some((birth.clone(), "2024-05-01".to_string(), 1_000)),
                since: Some(6),
                ever: if l.feature { None } else { Some((birth.clone(), first_drop.to_string(), "2024-05-02".to_string())) },
                removed: if l.feature { Some((first_drop.to_string(), "2024-05-02".to_string())) } else { None },
            })
            .collect();
        Some(History { head: 2_000, answers })
    };
    let r = analyze(&sides, &aux, &history(), &cfg);
    let o = r.orphans.iter().find(|o| o.name == "old").unwrap();
    assert_eq!((o.birth.as_ref().map(|(h, _)| h.as_str()), o.commits_since, o.age_days), (Some(birth.as_str()), Some(6), Some(0)));
    let (last, removed, _) = o.ever_imported.clone().unwrap();
    assert_eq!((removed.as_str(), last.as_str()), (first_drop.lines().next().unwrap(), birth.as_str()));
    assert!(o.line_text.starts_with(&format!("old declared in Cargo.toml:9 since {birth} (0 days, 6 commits) and last used in {birth}, removed in {removed} (")), "{}", o.line_text);
    let f = &r.dead_features[0];
    // The first drop commit deleted the only `cfg(feature = "ci")`; the killing commit is that one, not HEAD.
    assert_eq!(f.removed_in.as_ref().map(|(h, _)| h.as_str()), Some(first_drop.lines().next().unwrap()));
    assert_ne!(f.removed_in.as_ref().unwrap().0, killed);
    // Younger than min_age_commits: skipped.
    let r = analyze(&sides, &aux, &history(), &Cfg { min_age_commits: 10, ..Cfg::default() });
    assert!(r.orphans.iter().all(|o| o.optional) && r.dead_features.is_empty() && r.notes.iter().any(|n| n.contains("min_age_commits")), "{:?}", r.notes);
}

#[test]
fn render_says_none_without_manifests_and_lists_sections() {
    let r = DeclaredReport::empty(0, Vec::new());
    assert_eq!(render_section(&r, 5, &percent(&r)), "  none\n");
    let root = repo(&[("Cargo.toml", "[package]\nname = \"k\"\n[dependencies]\nanyhow = \"1\"\n"), ("src/main.rs", "fn main() { anyhow::bail!() }\n")]);
    let r = run(&root, &Cfg::default());
    assert_eq!(render_section(&r, 5, &percent(&r)), "  0 of 1 declared deps orphaned (0.0%) in 1 manifest; 0 of 0 features dead, 0 no-op; 0 of 0 config knobs in 0 structs unread\n  none\n");
}

#[test]
fn the_log_gives_the_oldest_and_the_newest_commit() {
    let log = "9a8b7c6\t2024-05-02\t1714600000\n1a2b3c4\t2024-05-01\t1714500000\n";
    assert_eq!(oldest(log), Some(("1a2b3c4".to_string(), "2024-05-01".to_string(), "1714500000".to_string())));
    assert_eq!(newest("9a8b7c6\t2024-05-02\n1a2b3c4\t2024-05-01\n"), Some(("9a8b7c6".to_string(), "2024-05-02".to_string())));
    assert_eq!(oldest(""), None);
    assert_eq!(newest(""), None);
    assert_eq!(age_in_days(0, 3 * 86_400 + 5), 3);
    assert_eq!(age_in_days(10, 0), 0);
}

#[test]
fn large_files_are_not_read() {
    assert!(is_read(MAX_BYTES));
    assert!(!is_read(MAX_BYTES + 1));
}

#[test]
fn a_manifest_that_does_not_parse_is_a_note() {
    assert!(parse_cargo("Cargo.toml", "[package\n").is_none());
    let r = run(&repo(&[("Cargo.toml", "[package\n"), ("src/main.rs", "fn main() {}\n")]), &Cfg::default());
    assert_eq!(r.totals.manifests, 0);
    assert_eq!(r.notes.len(), 1);
}
