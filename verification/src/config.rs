//! Every tunable of the passes, with its built-in default.
//!
//! Thresholds that are fractions are kept by the caller, which decides them in floating point.

use vstd::prelude::*;

use crate::text::{put, Chars};

verus! {

/// The file a repository keeps its settings in.
pub const FILE_NAME: &'static str = "scry.toml";

/// The texts of a list of literals.
pub open spec fn texts(v: Seq<&'static str>) -> Seq<Chars> {
    Seq::new(v.len(), |i: int| v[i]@)
}

/// Owned copies of `v`.
fn strings(v: &[&'static str]) -> (out: Vec<String>)
    ensures
        out.deep_view() == texts(v@),
{
    let mut out: Vec<String> = Vec::new();
    let mut i: usize = 0;
    while i < v.len()
        invariant
            i <= v.len(),
            out.deep_view() == texts(v@).take(i as int),
        decreases v.len() - i,
    {
        put(&mut out, v[i].to_owned());
        assert(texts(v@).take(i + 1) =~= texts(v@).take(i as int).push(v@[i as int]@));
        i = i + 1;
    }
    assert(texts(v@).take(v@.len() as int) =~= texts(v@));
    out
}

/// What names a place outside every symbol.
#[derive(Debug, Clone, Copy, PartialEq, Eq, Structural)]
pub enum SymbolFallback {
    PrecedingItem,
    Nothing,
}

/// Whether exports are an API or dead unless used.
#[derive(Debug, Clone, Copy, PartialEq, Eq, Structural)]
pub enum DeadMode {
    Auto,
    Library,
    Application,
}

/// Dead surface.
pub struct Dead {
    pub symbols: DeadSymbols,
    pub test_only: DeadTestOnly,
    pub shapes: DeadShapes,
}

impl Default for Dead {
    fn default() -> (r: Self)
        ensures
            DeadSymbols::is_default(r.symbols),
            DeadTestOnly::is_default(r.test_only),
            DeadShapes::is_default(r.shapes),
    {
        Dead { symbols: DeadSymbols::default(), test_only: DeadTestOnly::default(), shapes: DeadShapes::default() }
    }
}

/// Comments as structure.
pub struct Comments {
    pub banners: Banners,
    pub phases: Phases,
}

impl Default for Comments {
    fn default() -> (r: Self)
        ensures
            Banners::is_default(r.banners),
            Phases::is_default(r.phases),
    {
        Comments { banners: Banners::default(), phases: Phases::default() }
    }
}

/// How the walk classifies files.
pub struct Discover {
    /// Globs the walk leaves out.
    pub exclude: Vec<String>,
    /// Directories of third-party code.
    pub vendor_dirs: Vec<String>,
    /// Directories of test code.
    pub test_dirs: Vec<String>,
    /// Directories of data-shaped code.
    pub data_dirs: Vec<String>,
    /// Directories of machine-written code.
    pub generated_dirs: Vec<String>,
    /// Stem prefixes of test files.
    pub test_stem_prefixes: Vec<String>,
    /// Stem suffixes of test files.
    pub test_stem_suffixes: Vec<String>,
    /// Whole stems of test files.
    pub test_stems: Vec<String>,
    /// Stem parts of data files.
    pub data_stem_contains: Vec<String>,
    /// Lower-case phrases of a generated file.
    pub generated_markers: Vec<String>,
    /// How many first lines are searched for a marker.
    pub generated_marker_lines: usize,
    /// Files under this many lines are never data by density.
    pub data_min_lines: usize,
}

impl Discover {
    /// The built-in values.
    pub open spec fn is_default(r: Discover) -> bool {
        &&& r.exclude.len() == 0
        &&& r.vendor_dirs.deep_view() == texts(seq!["node_modules", "vendor", "third_party", "thirdparty", "dist", "build", "target", ".venv", "venv", "site-packages", "__pycache__", ".git"])
        &&& r.test_dirs.deep_view() == texts(seq!["test", "tests", "__tests__", "e2e", "spec", "specs", "testing", "testutils", "test_utils", "test_support"])
        &&& r.data_dirs.deep_view() == texts(seq!["fixtures", "fixture", "snapshots", "__snapshots__", "testdata"])
        &&& r.generated_dirs.deep_view() == texts(seq!["migrations", "generated", "__generated__", "gen"])
        &&& r.test_stem_prefixes.deep_view() == texts(seq!["test_"])
        &&& r.test_stem_suffixes.deep_view() == texts(seq!["_test", ".test", ".spec", ".snapshots", "Probes"])
        &&& r.test_stems.deep_view() == texts(seq!["conftest"])
        &&& r.data_stem_contains.deep_view() == texts(seq!["fixture"])
        &&& r.generated_markers.deep_view() == texts(seq!["@generated", "do not edit", "auto-generated", "automatically generated", "generated by"])
        &&& r.generated_marker_lines == 8
        &&& r.data_min_lines == 150
    }
}

impl Default for Discover {
    fn default() -> (r: Self)
        ensures
            Discover::is_default(r),
    {
        let vendor_dirs = strings(&["node_modules", "vendor", "third_party", "thirdparty", "dist", "build", "target", ".venv", "venv", "site-packages", "__pycache__", ".git"]);
        assert(vendor_dirs.deep_view() =~= texts(seq!["node_modules", "vendor", "third_party", "thirdparty", "dist", "build", "target", ".venv", "venv", "site-packages", "__pycache__", ".git"]));
        let test_dirs = strings(&["test", "tests", "__tests__", "e2e", "spec", "specs", "testing", "testutils", "test_utils", "test_support"]);
        assert(test_dirs.deep_view() =~= texts(seq!["test", "tests", "__tests__", "e2e", "spec", "specs", "testing", "testutils", "test_utils", "test_support"]));
        let data_dirs = strings(&["fixtures", "fixture", "snapshots", "__snapshots__", "testdata"]);
        assert(data_dirs.deep_view() =~= texts(seq!["fixtures", "fixture", "snapshots", "__snapshots__", "testdata"]));
        let generated_dirs = strings(&["migrations", "generated", "__generated__", "gen"]);
        assert(generated_dirs.deep_view() =~= texts(seq!["migrations", "generated", "__generated__", "gen"]));
        let test_stem_prefixes = strings(&["test_"]);
        assert(test_stem_prefixes.deep_view() =~= texts(seq!["test_"]));
        let test_stem_suffixes = strings(&["_test", ".test", ".spec", ".snapshots", "Probes"]);
        assert(test_stem_suffixes.deep_view() =~= texts(seq!["_test", ".test", ".spec", ".snapshots", "Probes"]));
        let test_stems = strings(&["conftest"]);
        assert(test_stems.deep_view() =~= texts(seq!["conftest"]));
        let data_stem_contains = strings(&["fixture"]);
        assert(data_stem_contains.deep_view() =~= texts(seq!["fixture"]));
        let generated_markers = strings(&["@generated", "do not edit", "auto-generated", "automatically generated", "generated by"]);
        assert(generated_markers.deep_view() =~= texts(seq!["@generated", "do not edit", "auto-generated", "automatically generated", "generated by"]));
        Discover {
            exclude: Vec::new(),
            vendor_dirs,
            test_dirs,
            data_dirs,
            generated_dirs,
            test_stem_prefixes,
            test_stem_suffixes,
            test_stems,
            data_stem_contains,
            generated_markers,
            generated_marker_lines: 8,
            data_min_lines: 150,
        }
    }
}

/// Thresholds on functions.
pub struct Metrics {
    /// Cognitive complexity from which a function is hard.
    pub cognitive_hard: u32,
    /// Lines from which a function may be a brain method.
    pub brain_min_lines: usize,
    /// Cognitive complexity from which it may be one.
    pub brain_min_cognitive: u32,
    /// Locals from which it may be one.
    pub brain_min_locals: usize,
}

impl Metrics {
    /// The built-in values.
    pub open spec fn is_default(r: Metrics) -> bool {
        &&& r.cognitive_hard == 15
        &&& r.brain_min_lines == 100
        &&& r.brain_min_cognitive == 15
        &&& r.brain_min_locals == 15
    }
}

impl Default for Metrics {
    fn default() -> (r: Self)
        ensures
            Metrics::is_default(r),
    {
        Metrics {
            cognitive_hard: 15,
            brain_min_lines: 100,
            brain_min_cognitive: 15,
            brain_min_locals: 15,
        }
    }
}

/// The dependency graph.
pub struct Deps {
    /// Import prefixes and the directories they stand for, in order.
    pub js_aliases: Vec<(String, String)>,
    /// The directories absolute Python imports start from; where there are none, the directory of
    /// the importing file and those above it.
    pub py_roots: Vec<String>,
    /// Cycles under this size get no cut.
    pub min_cycle_size_to_cut: usize,
    /// How many edges the search for a cut tries.
    pub max_edges_tried: usize,
    /// The most edges a cut set holds.
    pub max_cut_set: usize,
    /// What a glob import counts as, in symbols.
    pub glob_import_symbol_cost: u32,
    /// Report what cutting a hub would do.
    pub report_hub_cut: bool,
    /// Print a cycle once.
    pub dedupe_cycle_reason: bool,
    /// Look for cuts in Rust cycles.
    pub cut_rust_cycles: bool,
    /// Leave type-only imports out.
    pub ignore_type_only_imports: bool,
}

impl Deps {
    /// The built-in values.
    pub open spec fn is_default(r: Deps) -> bool {
        &&& r.js_aliases.deep_view() == seq![("@/"@, "src"@), ("~/"@, "src"@)]
        &&& r.py_roots@.len() == 0
        &&& r.min_cycle_size_to_cut == 4
        &&& r.max_edges_tried == 400
        &&& r.max_cut_set == 6
        &&& r.glob_import_symbol_cost == 20
        &&& r.report_hub_cut
        &&& r.dedupe_cycle_reason
        &&& r.cut_rust_cycles
        &&& r.ignore_type_only_imports
    }
}

impl Default for Deps {
    fn default() -> (r: Self)
        ensures
            Deps::is_default(r),
    {
        let mut js_aliases: Vec<(String, String)> = Vec::new();
        put(&mut js_aliases, ("@/".to_owned(), "src".to_owned()));
        put(&mut js_aliases, ("~/".to_owned(), "src".to_owned()));
        assert(js_aliases.deep_view() =~= seq![("@/"@, "src"@), ("~/"@, "src"@)]);
        Deps {
            js_aliases,
            py_roots: Vec::new(),
            min_cycle_size_to_cut: 4,
            max_edges_tried: 400,
            max_cut_set: 6,
            glob_import_symbol_cost: 20,
            report_hub_cut: true,
            dedupe_cycle_reason: true,
            cut_rust_cycles: true,
            ignore_type_only_imports: true,
        }
    }
}

/// Clone detection.
pub struct Clones {
    /// Tokens of one fingerprinted run.
    pub k: usize,
    /// Runs of one window.
    pub w: usize,
    /// The least tokens of a clone.
    pub min_tokens: usize,
    /// Fingerprints met in more files are dropped.
    pub max_files: usize,
    /// Fingerprints met at more places are dropped.
    pub max_locations: usize,
    /// Drop a match of two parts of one container.
    pub drop_same_container_self_match: bool,
    /// Entries from which a container is a table.
    pub table_min_entries: usize,
    /// The most nodes of a table entry.
    pub table_max_entry_nodes: usize,
    /// Node kinds that make an entry logic, by language family.
    pub table_control_kinds: Vec<(String, Vec<String>)>,
    /// List tables apart from logic.
    pub list_tables_separately: bool,
}

impl Clones {
    /// The built-in values.
    pub open spec fn is_default(r: Clones) -> bool {
        &&& r.k == 30
        &&& r.w == 20
        &&& r.min_tokens == 70
        &&& r.max_files == 40
        &&& r.max_locations == 2000
        &&& r.drop_same_container_self_match
        &&& r.table_min_entries == 6
        &&& r.table_max_entry_nodes == 40
        &&& r.table_control_kinds.deep_view() == seq![("python"@, texts(seq!["if_statement", "for_statement", "while_statement", "try_statement", "match_statement", "with_statement", "conditional_expression", "lambda", "list_comprehension", "dictionary_comprehension", "set_comprehension", "generator_expression"])), ("rust"@, texts(seq!["if_expression", "match_expression", "for_expression", "while_expression", "loop_expression", "closure_expression"])), ("typescript"@, texts(seq!["if_statement", "switch_statement", "for_statement", "for_in_statement", "while_statement", "do_statement", "try_statement", "ternary_expression", "arrow_function", "function_expression"]))]
        &&& r.list_tables_separately
    }
}

impl Default for Clones {
    fn default() -> (r: Self)
        ensures
            Clones::is_default(r),
    {
        let mut table_control_kinds: Vec<(String, Vec<String>)> = Vec::new();
        put(&mut table_control_kinds, ("python".to_owned(), strings(&["if_statement", "for_statement", "while_statement", "try_statement", "match_statement", "with_statement", "conditional_expression", "lambda", "list_comprehension", "dictionary_comprehension", "set_comprehension", "generator_expression"])));
        put(&mut table_control_kinds, ("rust".to_owned(), strings(&["if_expression", "match_expression", "for_expression", "while_expression", "loop_expression", "closure_expression"])));
        put(&mut table_control_kinds, ("typescript".to_owned(), strings(&["if_statement", "switch_statement", "for_statement", "for_in_statement", "while_statement", "do_statement", "try_statement", "ternary_expression", "arrow_function", "function_expression"])));
        assert(table_control_kinds.deep_view()[0].1 =~= texts(seq!["if_statement", "for_statement", "while_statement", "try_statement", "match_statement", "with_statement", "conditional_expression", "lambda", "list_comprehension", "dictionary_comprehension", "set_comprehension", "generator_expression"]));
        assert(table_control_kinds.deep_view()[1].1 =~= texts(seq!["if_expression", "match_expression", "for_expression", "while_expression", "loop_expression", "closure_expression"]));
        assert(table_control_kinds.deep_view()[2].1 =~= texts(seq!["if_statement", "switch_statement", "for_statement", "for_in_statement", "while_statement", "do_statement", "try_statement", "ternary_expression", "arrow_function", "function_expression"]));
        assert(table_control_kinds.deep_view() =~= seq![("python"@, texts(seq!["if_statement", "for_statement", "while_statement", "try_statement", "match_statement", "with_statement", "conditional_expression", "lambda", "list_comprehension", "dictionary_comprehension", "set_comprehension", "generator_expression"])), ("rust"@, texts(seq!["if_expression", "match_expression", "for_expression", "while_expression", "loop_expression", "closure_expression"])), ("typescript"@, texts(seq!["if_statement", "switch_statement", "for_statement", "for_in_statement", "while_statement", "do_statement", "try_statement", "ternary_expression", "arrow_function", "function_expression"]))]);
        Clones {
            k: 30,
            w: 20,
            min_tokens: 70,
            max_files: 40,
            max_locations: 2000,
            drop_same_container_self_match: true,
            table_min_entries: 6,
            table_max_entry_nodes: 40,
            table_control_kinds,
            list_tables_separately: true,
        }
    }
}

/// Inline tests and the mentions of tests.
pub struct Tests {
    /// Inline test regions count as tests: their units are tagged and their tokens left out.
    pub inline_modules: bool,
    /// Functions inside inline test regions are test units.
    pub count_inline_tests_as_refs: bool,
    /// Shorter names are never matched.
    pub min_name_len: usize,
    /// The fewest public symbols of a file whose share is reported.
    pub unmentioned_min_symbols: usize,
}

impl Tests {
    /// The built-in values.
    pub open spec fn is_default(r: Tests) -> bool {
        &&& r.inline_modules
        &&& r.count_inline_tests_as_refs
        &&& r.min_name_len == 5
        &&& r.unmentioned_min_symbols == 3
    }
}

impl Default for Tests {
    fn default() -> (r: Self)
        ensures
            Tests::is_default(r),
    {
        Tests { inline_modules: true, count_inline_tests_as_refs: true, min_name_len: 5, unmentioned_min_symbols: 3 }
    }
}

/// The refactoring plan.
pub struct Plan {
    /// The most steps of a plan.
    pub max_steps: usize,
    /// Fold clones among tests into one step.
    pub fold_test_clones: bool,
    /// What names a place outside every symbol.
    pub symbol_fallback: SymbolFallback,
    /// Step kinds, most urgent first.
    pub kind_priority: Vec<String>,
    /// Print the plan in the text report.
    pub include_in_text_report: bool,
}

impl Plan {
    /// The built-in values.
    pub open spec fn is_default(r: Plan) -> bool {
        &&& r.max_steps == 6
        &&& r.fold_test_clones
        &&& r.symbol_fallback == SymbolFallback::PrecedingItem
        &&& r.kind_priority.deep_view() == texts(seq!["fold_test_clones", "canonicalise_clone", "extract", "cut_cycle_edge"])
        &&& r.include_in_text_report
    }
}

impl Default for Plan {
    fn default() -> (r: Self)
        ensures
            Plan::is_default(r),
    {
        let kind_priority = strings(&["fold_test_clones", "canonicalise_clone", "extract", "cut_cycle_edge"]);
        assert(kind_priority.deep_view() =~= texts(seq!["fold_test_clones", "canonicalise_clone", "extract", "cut_cycle_edge"]));
        Plan {
            max_steps: 6,
            fold_test_clones: true,
            symbol_fallback: SymbolFallback::PrecedingItem,
            kind_priority,
            include_in_text_report: true,
        }
    }
}

/// Dead exported symbols.
pub struct DeadSymbols {
    /// Check symbols.
    pub enabled: bool,
    /// Library or application.
    pub mode: DeadMode,
    /// Files whose exports are the API.
    pub api_roots: Vec<String>,
    /// Files nothing has to import.
    pub entrypoints: Vec<String>,
    /// Read the manifests for the mode.
    pub read_manifests: bool,
    /// Attributes that exempt an item.
    pub skip_attrs: Vec<String>,
    /// Decorators that exempt an item; a final `*` matches any ending.
    pub skip_decorators: Vec<String>,
    /// Names that are never candidates.
    pub skip_names: Vec<String>,
    /// Prefixes of names that are never candidates.
    pub skip_name_prefixes: Vec<String>,
    /// Exports a framework calls.
    pub ts_framework_exports: Vec<String>,
    /// Calls whose arguments are test context.
    pub ts_test_calls: Vec<String>,
    /// Strings count as references.
    pub string_refs: bool,
    /// Shorter items are never candidates.
    pub min_lines: usize,
    /// Kind classes that are checked.
    pub kinds: Vec<String>,
    /// Language families that are checked.
    pub languages: Vec<String>,
    /// Items from which a file gets the in-file-only line.
    pub overexported_min_items: usize,
    /// The most symbol lines of a file.
    pub max_reported_per_file: usize,
}

impl DeadSymbols {
    /// The built-in values.
    pub open spec fn is_default(r: DeadSymbols) -> bool {
        &&& r.enabled
        &&& r.mode == DeadMode::Auto
        &&& r.api_roots.deep_view() == texts(seq!["src/lib.rs", "**/index.ts", "**/__init__.py"])
        &&& r.entrypoints.deep_view() == texts(seq!["src/main.rs", "src/bin/**", "build.rs", "benches/**", "examples/**", "fuzz/**", "**/__main__.py", "conftest.py", "build/**", "scripts/**", "*.config.ts"])
        &&& r.read_manifests
        &&& r.skip_attrs.deep_view() == texts(seq!["test", "bench", "no_mangle", "wasm_bindgen", "pyfunction", "tauri::command", "proc_macro"])
        &&& r.skip_decorators.deep_view() == texts(seq!["pytest.fixture", "app.route", "router.*"])
        &&& r.skip_names.deep_view() == texts(seq!["IntrinsicAttributes", "ElementChildrenAttribute", "ElementType", "IntrinsicElements"])
        &&& r.skip_name_prefixes.deep_view() == texts(seq!["_", "test_"])
        &&& r.ts_framework_exports.deep_view() == texts(seq!["default", "metadata", "generateStaticParams", "loader", "action", "config"])
        &&& r.ts_test_calls.deep_view() == texts(seq!["describe", "it", "test"])
        &&& r.string_refs
        &&& r.min_lines == 2
        &&& r.kinds.deep_view() == texts(seq!["fn", "type", "const"])
        &&& r.languages.deep_view() == texts(seq!["rust"])
        &&& r.overexported_min_items == 4
        &&& r.max_reported_per_file == 5
    }
}

impl Default for DeadSymbols {
    fn default() -> (r: Self)
        ensures
            DeadSymbols::is_default(r),
    {
        let api_roots = strings(&["src/lib.rs", "**/index.ts", "**/__init__.py"]);
        assert(api_roots.deep_view() =~= texts(seq!["src/lib.rs", "**/index.ts", "**/__init__.py"]));
        let entrypoints = strings(&["src/main.rs", "src/bin/**", "build.rs", "benches/**", "examples/**", "fuzz/**", "**/__main__.py", "conftest.py", "build/**", "scripts/**", "*.config.ts"]);
        assert(entrypoints.deep_view() =~= texts(seq!["src/main.rs", "src/bin/**", "build.rs", "benches/**", "examples/**", "fuzz/**", "**/__main__.py", "conftest.py", "build/**", "scripts/**", "*.config.ts"]));
        let skip_attrs = strings(&["test", "bench", "no_mangle", "wasm_bindgen", "pyfunction", "tauri::command", "proc_macro"]);
        assert(skip_attrs.deep_view() =~= texts(seq!["test", "bench", "no_mangle", "wasm_bindgen", "pyfunction", "tauri::command", "proc_macro"]));
        let skip_decorators = strings(&["pytest.fixture", "app.route", "router.*"]);
        assert(skip_decorators.deep_view() =~= texts(seq!["pytest.fixture", "app.route", "router.*"]));
        let skip_names = strings(&["IntrinsicAttributes", "ElementChildrenAttribute", "ElementType", "IntrinsicElements"]);
        assert(skip_names.deep_view() =~= texts(seq!["IntrinsicAttributes", "ElementChildrenAttribute", "ElementType", "IntrinsicElements"]));
        let skip_name_prefixes = strings(&["_", "test_"]);
        assert(skip_name_prefixes.deep_view() =~= texts(seq!["_", "test_"]));
        let ts_framework_exports = strings(&["default", "metadata", "generateStaticParams", "loader", "action", "config"]);
        assert(ts_framework_exports.deep_view() =~= texts(seq!["default", "metadata", "generateStaticParams", "loader", "action", "config"]));
        let ts_test_calls = strings(&["describe", "it", "test"]);
        assert(ts_test_calls.deep_view() =~= texts(seq!["describe", "it", "test"]));
        let kinds = strings(&["fn", "type", "const"]);
        assert(kinds.deep_view() =~= texts(seq!["fn", "type", "const"]));
        let languages = strings(&["rust"]);
        assert(languages.deep_view() =~= texts(seq!["rust"]));
        DeadSymbols {
            enabled: true,
            mode: DeadMode::Auto,
            api_roots,
            entrypoints,
            read_manifests: true,
            skip_attrs,
            skip_decorators,
            skip_names,
            skip_name_prefixes,
            ts_framework_exports,
            ts_test_calls,
            string_refs: true,
            min_lines: 2,
            kinds,
            languages,
            overexported_min_items: 4,
            max_reported_per_file: 5,
        }
    }
}

/// Symbols only tests keep alive.
pub struct DeadTestOnly {
    /// Check them.
    pub enabled: bool,
    /// The least test references.
    pub min_external_test_refs: usize,
    /// Benches are production code.
    pub treat_benches_as_prod: bool,
    /// Where benches stand.
    pub bench_globs: Vec<String>,
    /// Further files that are test context.
    pub extra_test_globs: Vec<String>,
    /// The most lines of a file.
    pub max_reported_per_file: usize,
}

impl DeadTestOnly {
    /// The built-in values.
    pub open spec fn is_default(r: DeadTestOnly) -> bool {
        &&& r.enabled
        &&& r.min_external_test_refs == 2
        &&& !r.treat_benches_as_prod
        &&& r.bench_globs.deep_view() == texts(seq!["benches/**", "examples/**", "fuzz/**"])
        &&& r.extra_test_globs.deep_view() == texts(seq!["**/testutil*.rs", "**/test_utils*", "**/fixtures/**"])
        &&& r.max_reported_per_file == 5
    }
}

impl Default for DeadTestOnly {
    fn default() -> (r: Self)
        ensures
            DeadTestOnly::is_default(r),
    {
        let bench_globs = strings(&["benches/**", "examples/**", "fuzz/**"]);
        assert(bench_globs.deep_view() =~= texts(seq!["benches/**", "examples/**", "fuzz/**"]));
        let extra_test_globs = strings(&["**/testutil*.rs", "**/test_utils*", "**/fixtures/**"]);
        assert(extra_test_globs.deep_view() =~= texts(seq!["**/testutil*.rs", "**/test_utils*", "**/fixtures/**"]));
        DeadTestOnly {
            enabled: true,
            min_external_test_refs: 2,
            treat_benches_as_prod: false,
            bench_globs,
            extra_test_globs,
            max_reported_per_file: 5,
        }
    }
}

/// Fields nothing reads and variants nothing constructs.
pub struct DeadShapes {
    /// Check them.
    pub enabled: bool,
    /// Language families that are checked.
    pub languages: Vec<String>,
    /// Derives that read no field.
    pub allow_derives: Vec<String>,
    /// Derives that read every field.
    pub serializing_derives: Vec<String>,
    /// Attributes that exempt a type.
    pub skip_attrs: Vec<String>,
    /// A non-exhaustive type has no handled-only variants.
    pub non_exhaustive_hides_handled: bool,
    /// Traits whose impl may construct any variant.
    pub exempt_impl_traits: Vec<String>,
    /// Format captures count as reads.
    pub string_refs: bool,
    /// Report variants that are only matched.
    pub report_handled_never_produced: bool,
    /// Check only types another file uses.
    pub require_type_reachable: bool,
    /// The most shape lines of a file.
    pub max_reported_per_file: usize,
}

impl DeadShapes {
    /// The built-in values.
    pub open spec fn is_default(r: DeadShapes) -> bool {
        &&& r.enabled
        &&& r.languages.deep_view() == texts(seq!["rust"])
        &&& r.allow_derives.deep_view() == texts(seq!["Debug", "Clone", "Copy", "PartialEq", "Eq", "Hash", "Default", "PartialOrd", "Ord"])
        &&& r.serializing_derives.deep_view() == texts(seq!["Serialize"])
        &&& r.skip_attrs.deep_view() == texts(seq!["repr"])
        &&& !r.non_exhaustive_hides_handled
        &&& r.exempt_impl_traits.deep_view() == texts(seq!["FromStr", "TryFrom", "From", "Default", "Deref"])
        &&& r.string_refs
        &&& r.report_handled_never_produced
        &&& r.require_type_reachable
        &&& r.max_reported_per_file == 5
    }
}

impl Default for DeadShapes {
    fn default() -> (r: Self)
        ensures
            DeadShapes::is_default(r),
    {
        let languages = strings(&["rust"]);
        assert(languages.deep_view() =~= texts(seq!["rust"]));
        let allow_derives = strings(&["Debug", "Clone", "Copy", "PartialEq", "Eq", "Hash", "Default", "PartialOrd", "Ord"]);
        assert(allow_derives.deep_view() =~= texts(seq!["Debug", "Clone", "Copy", "PartialEq", "Eq", "Hash", "Default", "PartialOrd", "Ord"]));
        let serializing_derives = strings(&["Serialize"]);
        assert(serializing_derives.deep_view() =~= texts(seq!["Serialize"]));
        let skip_attrs = strings(&["repr"]);
        assert(skip_attrs.deep_view() =~= texts(seq!["repr"]));
        let exempt_impl_traits = strings(&["FromStr", "TryFrom", "From", "Default", "Deref"]);
        assert(exempt_impl_traits.deep_view() =~= texts(seq!["FromStr", "TryFrom", "From", "Default", "Deref"]));
        DeadShapes {
            enabled: true,
            languages,
            allow_derives,
            serializing_derives,
            skip_attrs,
            non_exhaustive_hides_handled: false,
            exempt_impl_traits,
            string_refs: true,
            report_handled_never_produced: true,
            require_type_reachable: true,
            max_reported_per_file: 5,
        }
    }
}

/// Parameter clumps.
pub struct Clumps {
    /// The fewest parameters of a clump.
    pub min_group: usize,
    /// The most parameters of a clump.
    pub max_group: usize,
    /// The named parameters kept of a function, in declared order.
    pub max_params: usize,
    /// The fewest functions that share a clump.
    pub min_functions: usize,
    /// The fewest files that share it.
    pub min_files: usize,
    /// One of the two thresholds is enough.
    pub report_if_either: bool,
    /// The fewest slots whose type every annotated member agrees on; a tuple nothing annotates needs
    /// one function more instead.
    pub min_typed_slots: usize,
    /// The fewest characters of the names of a tuple that nothing annotates, taken together.
    pub min_name_len: usize,
    /// Parameters with this prefix are unused by definition; empty turns that off.
    pub unused_prefix: String,
    /// Leave methods of trait impls out.
    pub skip_trait_impls: bool,
    /// Parameter lists a protocol fixes.
    pub protocol_tuples: Vec<Vec<String>>,
    /// Leave `__x__` methods out.
    pub skip_dunder: bool,
    /// Leave overload signatures out.
    pub skip_overloads: bool,
    /// Count one name once per file.
    pub dedupe_same_name_in_file: bool,
    /// Name the one function every member is referenced from.
    pub note_single_caller: bool,
    /// The most lines of a file.
    pub max_reported_per_file: usize,
    /// The most sites of a line.
    pub max_sites_listed: usize,
}

impl Clumps {
    /// The built-in values.
    pub open spec fn is_default(r: Clumps) -> bool {
        &&& r.min_group == 3
        &&& r.max_group == 4
        &&& r.max_params == 8
        &&& r.min_functions == 4
        &&& r.min_files == 2
        &&& r.report_if_either
        &&& r.min_typed_slots == 2
        &&& r.min_name_len == 3
        &&& r.unused_prefix@ == "_"@
        &&& r.skip_trait_impls
        &&& r.protocol_tuples.deep_view() == seq![texts(seq!["c", "next"]), texts(seq!["req", "res", "next"]), texts(seq!["ctx", "param", "value"])]
        &&& r.skip_dunder
        &&& r.skip_overloads
        &&& r.dedupe_same_name_in_file
        &&& r.note_single_caller
        &&& r.max_reported_per_file == 3
        &&& r.max_sites_listed == 8
    }
}

impl Default for Clumps {
    fn default() -> (r: Self)
        ensures
            Clumps::is_default(r),
    {
        let mut protocol_tuples: Vec<Vec<String>> = Vec::new();
        put(&mut protocol_tuples, strings(&["c", "next"]));
        put(&mut protocol_tuples, strings(&["req", "res", "next"]));
        put(&mut protocol_tuples, strings(&["ctx", "param", "value"]));
        assert(protocol_tuples.deep_view()[0] =~= texts(seq!["c", "next"]));
        assert(protocol_tuples.deep_view()[1] =~= texts(seq!["req", "res", "next"]));
        assert(protocol_tuples.deep_view()[2] =~= texts(seq!["ctx", "param", "value"]));
        assert(protocol_tuples.deep_view() =~= seq![texts(seq!["c", "next"]), texts(seq!["req", "res", "next"]), texts(seq!["ctx", "param", "value"])]);
        Clumps {
            min_group: 3,
            max_group: 4,
            max_params: 8,
            min_functions: 4,
            min_files: 2,
            report_if_either: true,
            min_typed_slots: 2,
            min_name_len: 3,
            unused_prefix: "_".to_owned(),
            skip_trait_impls: true,
            protocol_tuples,
            skip_dunder: true,
            skip_overloads: true,
            dedupe_same_name_in_file: true,
            note_single_caller: true,
            max_reported_per_file: 3,
            max_sites_listed: 8,
        }
    }
}

/// Declared but unconsumed.
pub struct Declared {
    /// Language families that are read.
    pub languages: Vec<String>,
    /// Manifests.
    pub manifest_globs: Vec<String>,
    /// Check dev-dependencies too.
    pub check_dev_dependencies: bool,
    /// Report dependencies only tests use.
    pub check_placement: bool,
    /// Dependencies linked for their effect.
    pub side_effect_deps: Vec<String>,
    /// Docs that may mention a dependency.
    pub doc_globs: Vec<String>,
    /// Younger findings are held back.
    pub min_age_commits: usize,
    /// Skip crates that silence warnings.
    pub skip_lint_silenced_crates: bool,
    /// The most history lookups.
    pub max_git_lookups: usize,
    /// Report features that do nothing.
    pub report_noop_features: bool,
    /// Report dead features that gate nothing.
    pub report_bare_dead_features: bool,
    /// CI files that may name a feature.
    pub feature_ci_globs: Vec<String>,
    /// Paths of config files.
    pub config_file_regex: String,
    /// Names of config structs.
    pub config_struct_regex: String,
    /// Formats a config is read from.
    pub config_formats: Vec<String>,
    /// Methods of the write side.
    pub serialize_fn_regex: String,
    /// Knobs of a library are checked too.
    pub config_is_public_api: bool,
    /// Check only crates with a binary.
    pub require_bin_target: bool,
    /// Report only where a sibling is read or a doc names the knob.
    pub require_sibling_read_or_doc: bool,
    /// Docs users read.
    pub public_doc_globs: Vec<String>,
    /// Shorter names are skipped where two structs declare them.
    pub min_field_name_len: usize,
    /// The most knobs of a line.
    pub max_knobs_listed: usize,
    /// Prefixes of environment names.
    pub env_prefixes: Vec<String>,
    /// Names too generic for a prefix.
    pub env_prefix_stoplist: Vec<String>,
    /// Words of test-only names.
    pub env_keywords: Vec<String>,
    /// The fewest mentions by tests.
    pub min_test_mentions: usize,
    /// Files that set the environment.
    pub setter_file_globs: Vec<String>,
    /// Names read at compile time count.
    pub include_compile_time_env: bool,
}

impl Declared {
    /// The built-in values.
    pub open spec fn is_default(r: Declared) -> bool {
        &&& r.languages.deep_view() == texts(seq!["rust"])
        &&& r.manifest_globs.deep_view() == texts(seq!["**/Cargo.toml", "**/package.json", "**/pyproject.toml"])
        &&& !r.check_dev_dependencies
        &&& !r.check_placement
        &&& r.side_effect_deps.deep_view() == texts(seq!["*-sys", "tikv-jemallocator", "openssl", "getrandom", "@vitest/coverage-*", "tslib", "core-js", "react"])
        &&& r.doc_globs.deep_view() == texts(seq!["*.md", "docs/**"])
        &&& r.min_age_commits == 5
        &&& !r.skip_lint_silenced_crates
        &&& r.max_git_lookups == 50
        &&& !r.report_noop_features
        &&& !r.report_bare_dead_features
        &&& r.feature_ci_globs.deep_view() == texts(seq![".github/workflows/*", "Makefile", "justfile", "**/*.sh"])
        &&& r.config_file_regex@ == "(^|/)(config|settings|cfg|options)[^/]*\\.(rs|py|ts|tsx|js)$"@
        &&& r.config_struct_regex@ == "(Cfg|Config|Settings|Options)$"@
        &&& r.config_formats.deep_view() == texts(seq!["toml"])
        &&& r.serialize_fn_regex@ == "^(render|to_toml|to_yaml|to_json|to_string|serialize|dump|write_to|save)$"@
        &&& !r.config_is_public_api
        &&& r.require_bin_target
        &&& r.require_sibling_read_or_doc
        &&& r.public_doc_globs.deep_view() == texts(seq!["README*", "docs/**", "doc/**", "*.1", "man/**", "GUIDE*", "FAQ*"])
        &&& r.min_field_name_len == 3
        &&& r.max_knobs_listed == 8
        &&& r.env_prefixes.len() == 0
        &&& r.env_prefix_stoplist.deep_view() == texts(seq!["app", "core", "cli", "server"])
        &&& r.env_keywords.deep_view() == texts(seq!["TEST", "FIXTURE", "SEED", "MOCK", "FAKE", "STUB", "REPLAY"])
        &&& r.min_test_mentions == 1
        &&& r.setter_file_globs.deep_view() == texts(seq![".github/**", "Dockerfile*", "Makefile", "justfile", "docker-compose*", ".env*"])
        &&& !r.include_compile_time_env
    }
}

impl Default for Declared {
    fn default() -> (r: Self)
        ensures
            Declared::is_default(r),
    {
        let languages = strings(&["rust"]);
        assert(languages.deep_view() =~= texts(seq!["rust"]));
        let manifest_globs = strings(&["**/Cargo.toml", "**/package.json", "**/pyproject.toml"]);
        assert(manifest_globs.deep_view() =~= texts(seq!["**/Cargo.toml", "**/package.json", "**/pyproject.toml"]));
        let side_effect_deps = strings(&["*-sys", "tikv-jemallocator", "openssl", "getrandom", "@vitest/coverage-*", "tslib", "core-js", "react"]);
        assert(side_effect_deps.deep_view() =~= texts(seq!["*-sys", "tikv-jemallocator", "openssl", "getrandom", "@vitest/coverage-*", "tslib", "core-js", "react"]));
        let doc_globs = strings(&["*.md", "docs/**"]);
        assert(doc_globs.deep_view() =~= texts(seq!["*.md", "docs/**"]));
        let feature_ci_globs = strings(&[".github/workflows/*", "Makefile", "justfile", "**/*.sh"]);
        assert(feature_ci_globs.deep_view() =~= texts(seq![".github/workflows/*", "Makefile", "justfile", "**/*.sh"]));
        let config_formats = strings(&["toml"]);
        assert(config_formats.deep_view() =~= texts(seq!["toml"]));
        let public_doc_globs = strings(&["README*", "docs/**", "doc/**", "*.1", "man/**", "GUIDE*", "FAQ*"]);
        assert(public_doc_globs.deep_view() =~= texts(seq!["README*", "docs/**", "doc/**", "*.1", "man/**", "GUIDE*", "FAQ*"]));
        let env_prefix_stoplist = strings(&["app", "core", "cli", "server"]);
        assert(env_prefix_stoplist.deep_view() =~= texts(seq!["app", "core", "cli", "server"]));
        let env_keywords = strings(&["TEST", "FIXTURE", "SEED", "MOCK", "FAKE", "STUB", "REPLAY"]);
        assert(env_keywords.deep_view() =~= texts(seq!["TEST", "FIXTURE", "SEED", "MOCK", "FAKE", "STUB", "REPLAY"]));
        let setter_file_globs = strings(&[".github/**", "Dockerfile*", "Makefile", "justfile", "docker-compose*", ".env*"]);
        assert(setter_file_globs.deep_view() =~= texts(seq![".github/**", "Dockerfile*", "Makefile", "justfile", "docker-compose*", ".env*"]));
        Declared {
            languages,
            manifest_globs,
            check_dev_dependencies: false,
            check_placement: false,
            side_effect_deps,
            doc_globs,
            min_age_commits: 5,
            skip_lint_silenced_crates: false,
            max_git_lookups: 50,
            report_noop_features: false,
            report_bare_dead_features: false,
            feature_ci_globs,
            config_file_regex: "(^|/)(config|settings|cfg|options)[^/]*\\.(rs|py|ts|tsx|js)$".to_owned(),
            config_struct_regex: "(Cfg|Config|Settings|Options)$".to_owned(),
            config_formats,
            serialize_fn_regex: "^(render|to_toml|to_yaml|to_json|to_string|serialize|dump|write_to|save)$".to_owned(),
            config_is_public_api: false,
            require_bin_target: true,
            require_sibling_read_or_doc: true,
            public_doc_globs,
            min_field_name_len: 3,
            max_knobs_listed: 8,
            env_prefixes: Vec::new(),
            env_prefix_stoplist,
            env_keywords,
            min_test_mentions: 1,
            setter_file_globs,
            include_compile_time_env: false,
        }
    }
}

/// Section banners.
pub struct Banners {
    /// Look for banners.
    pub enabled: bool,
    /// The shortest rule.
    pub min_rule_len: usize,
    /// The characters rules are made of.
    pub rule_chars: String,
    /// Lines between the two rules of a banner.
    pub pair_gap: usize,
    /// The fewest sections of a file.
    pub min_sections: usize,
    /// The shortest section worth a file.
    pub min_section_lines: usize,
    /// Shorter files are left alone.
    pub min_file_lines: usize,
    /// A banner at the top is a header.
    pub skip_top_of_file: bool,
    /// Words that make a comment no banner.
    pub skip_markers: Vec<String>,
    /// A banner has a title.
    pub require_title: bool,
}

impl Banners {
    /// The built-in values.
    pub open spec fn is_default(r: Banners) -> bool {
        &&& r.enabled
        &&& r.min_rule_len == 6
        &&& r.rule_chars@ == "-=\u{2500}\u{2550}\u{2501}*#_"@
        &&& r.pair_gap == 2
        &&& r.min_sections == 3
        &&& r.min_section_lines == 100
        &&& r.min_file_lines == 400
        &&& r.skip_top_of_file
        &&& r.skip_markers.deep_view() == texts(seq!["#region", "#endregion", "%%"])
        &&& r.require_title
    }
}

impl Default for Banners {
    fn default() -> (r: Self)
        ensures
            Banners::is_default(r),
    {
        let skip_markers = strings(&["#region", "#endregion", "%%"]);
        assert(skip_markers.deep_view() =~= texts(seq!["#region", "#endregion", "%%"]));
        Banners {
            enabled: true,
            min_rule_len: 6,
            rule_chars: "-=\u{2500}\u{2550}\u{2501}*#_".to_owned(),
            pair_gap: 2,
            min_sections: 3,
            min_section_lines: 100,
            min_file_lines: 400,
            skip_top_of_file: true,
            skip_markers,
            require_title: true,
        }
    }
}

/// Phase comments within a function.
pub struct Phases {
    /// The fewest phases of a unit.
    pub min_phases: usize,
    /// The shortest phase.
    pub min_phase_lines: usize,
    /// The shortest unit.
    pub min_span_lines: usize,
    /// How deep a phase comment may stand.
    pub max_depth: usize,
    /// What a phase comment looks like.
    pub patterns: Vec<String>,
    /// Leave test modules out.
    pub skip_test_modules: bool,
    /// Only units from this complexity on; the metrics threshold where unset.
    pub cross_with_cognitive_min: Option<u32>,
    /// Estimate the complexity of a phase.
    pub estimate_cognitive: bool,
    /// The most shared locals a line names.
    pub max_shared_locals_named: usize,
}

impl Phases {
    /// The built-in values.
    pub open spec fn is_default(r: Phases) -> bool {
        &&& r.min_phases == 2
        &&& r.min_phase_lines == 8
        &&& r.min_span_lines == 40
        &&& r.max_depth == 1
        &&& r.patterns.deep_view() == texts(seq!["^\\s*[\u{2500}\u{2550}\u{2501}]{2,}\\s*\\S", "^\\s*(step|pass|phase|stage)\\s*\\d", "^\\s*\\d+[.):]\\s"])
        &&& r.skip_test_modules
        &&& r.cross_with_cognitive_min is None
        &&& r.estimate_cognitive
        &&& r.max_shared_locals_named == 4
    }
}

impl Default for Phases {
    fn default() -> (r: Self)
        ensures
            Phases::is_default(r),
    {
        let patterns = strings(&["^\\s*[\u{2500}\u{2550}\u{2501}]{2,}\\s*\\S", "^\\s*(step|pass|phase|stage)\\s*\\d", "^\\s*\\d+[.):]\\s"]);
        assert(patterns.deep_view() =~= texts(seq!["^\\s*[\u{2500}\u{2550}\u{2501}]{2,}\\s*\\S", "^\\s*(step|pass|phase|stage)\\s*\\d", "^\\s*\\d+[.):]\\s"]));
        Phases {
            min_phases: 2,
            min_phase_lines: 8,
            min_span_lines: 40,
            max_depth: 1,
            patterns,
            skip_test_modules: true,
            cross_with_cognitive_min: None,
            estimate_cognitive: true,
            max_shared_locals_named: 4,
        }
    }
}

/// Silent fallbacks.
pub struct Fallback {
    /// Methods that supply a default.
    pub methods_rust: Vec<String>,
    /// Calls that take input apart (Rust).
    pub parse_calls: Vec<String>,
    /// Constructors of an empty value.
    pub empty_constructors: Vec<String>,
    /// Getters with a default (Python).
    pub python_default_getters: Vec<String>,
    /// Calls that take input apart (Python).
    pub parse_calls_python: Vec<String>,
    /// Functions whose `or` is no fallback.
    pub python_skip_or_in: Vec<String>,
    /// Operators that supply a default (TypeScript).
    pub ts_operators: Vec<String>,
    /// `||` is one too.
    pub ts_count_or: bool,
    /// `?.` is one too.
    pub count_optional_chain: bool,
    /// Calls that take input apart (TypeScript).
    pub parse_calls_ts: Vec<String>,
    /// The fewest sites of a unit.
    pub min_sites: usize,
    /// Functions that are exempt.
    pub exempt_fn_patterns: Vec<String>,
    /// The most lines of a file.
    pub max_reported_per_file: usize,
}

impl Fallback {
    /// The built-in values.
    pub open spec fn is_default(r: Fallback) -> bool {
        &&& r.methods_rust.deep_view() == texts(seq!["unwrap_or", "unwrap_or_default", "unwrap_or_else", "or_default"])
        &&& r.parse_calls.deep_view() == texts(seq!["parse", "split", "next", "strip_prefix", "from_utf8", "splitn", "split_once", "trim_start_matches", "get"])
        &&& r.empty_constructors.deep_view() == texts(seq!["String::new", "Vec::new", "Default::default"])
        &&& r.python_default_getters.deep_view() == texts(seq!["get", "getattr", "pop", "setdefault"])
        &&& r.parse_calls_python.deep_view() == texts(seq!["split", "rsplit", "partition", "rpartition", "splitlines", "readline", "int", "float"])
        &&& r.python_skip_or_in.deep_view() == texts(seq!["__init__", "__post_init__"])
        &&& r.ts_operators.deep_view() == texts(seq!["??"])
        &&& !r.ts_count_or
        &&& !r.count_optional_chain
        &&& r.parse_calls_ts.deep_view() == texts(seq!["split", "match", "exec", "parseInt", "parseFloat", "parse", "shift", "pop"])
        &&& r.min_sites == 2
        &&& r.exempt_fn_patterns.deep_view() == texts(seq!["^default", "^from_env", "^with_", "^parse_args", "^from_matches", "^configure", "^__init__$"])
        &&& r.max_reported_per_file == 3
    }
}

impl Default for Fallback {
    fn default() -> (r: Self)
        ensures
            Fallback::is_default(r),
    {
        let methods_rust = strings(&["unwrap_or", "unwrap_or_default", "unwrap_or_else", "or_default"]);
        assert(methods_rust.deep_view() =~= texts(seq!["unwrap_or", "unwrap_or_default", "unwrap_or_else", "or_default"]));
        let parse_calls = strings(&["parse", "split", "next", "strip_prefix", "from_utf8", "splitn", "split_once", "trim_start_matches", "get"]);
        assert(parse_calls.deep_view() =~= texts(seq!["parse", "split", "next", "strip_prefix", "from_utf8", "splitn", "split_once", "trim_start_matches", "get"]));
        let empty_constructors = strings(&["String::new", "Vec::new", "Default::default"]);
        assert(empty_constructors.deep_view() =~= texts(seq!["String::new", "Vec::new", "Default::default"]));
        let python_default_getters = strings(&["get", "getattr", "pop", "setdefault"]);
        assert(python_default_getters.deep_view() =~= texts(seq!["get", "getattr", "pop", "setdefault"]));
        let parse_calls_python = strings(&["split", "rsplit", "partition", "rpartition", "splitlines", "readline", "int", "float"]);
        assert(parse_calls_python.deep_view() =~= texts(seq!["split", "rsplit", "partition", "rpartition", "splitlines", "readline", "int", "float"]));
        let python_skip_or_in = strings(&["__init__", "__post_init__"]);
        assert(python_skip_or_in.deep_view() =~= texts(seq!["__init__", "__post_init__"]));
        let ts_operators = strings(&["??"]);
        assert(ts_operators.deep_view() =~= texts(seq!["??"]));
        let parse_calls_ts = strings(&["split", "match", "exec", "parseInt", "parseFloat", "parse", "shift", "pop"]);
        assert(parse_calls_ts.deep_view() =~= texts(seq!["split", "match", "exec", "parseInt", "parseFloat", "parse", "shift", "pop"]));
        let exempt_fn_patterns = strings(&["^default", "^from_env", "^with_", "^parse_args", "^from_matches", "^configure", "^__init__$"]);
        assert(exempt_fn_patterns.deep_view() =~= texts(seq!["^default", "^from_env", "^with_", "^parse_args", "^from_matches", "^configure", "^__init__$"]));
        Fallback {
            methods_rust,
            parse_calls,
            empty_constructors,
            python_default_getters,
            parse_calls_python,
            python_skip_or_in,
            ts_operators,
            ts_count_or: false,
            count_optional_chain: false,
            parse_calls_ts,
            min_sites: 2,
            exempt_fn_patterns,
            max_reported_per_file: 3,
        }
    }
}

} // verus!
