use scry::config::{Clones, Clumps, Discover};
use scry::layers::{merge_tables, read_layer, Leaf};
use toml::Value;

fn leaves(text: &str) -> Vec<Leaf> {
    read_layer(text).unwrap()
}

fn at<'a>(list: &'a [Leaf], path: &str) -> Option<&'a str> {
    list.iter().find(|l| l.path.join(".") == path).and_then(|l| l.value.as_deref())
}

fn texts(v: &[String]) -> String {
    Value::Array(v.iter().map(|s| Value::String(s.clone())).collect()).to_string()
}

#[test]
fn partial_file_overrides_only_what_it_names() {
    let (clones, clumps, discover) = (Clones::default(), Clumps::default(), Discover::default());
    let tuples: Vec<String> = clumps.protocol_tuples.iter().map(|t| texts(t)).collect();
    let mut c = leaves(&format!(
        "[clones]\nk = {}\nmin_tokens = {}\n[clumps]\nmin_typed_slots = {}\nmax_group = {}\nprotocol_tuples = [{}]\n[report.with_history]\nhotspot = 0.5\nfixes = 0.15\n[discover]\ntest_dirs = {}\nvendor_dirs = {}\n",
        clones.k, clones.min_tokens, clumps.min_typed_slots, clumps.max_group, tuples.join(", "), texts(&discover.test_dirs), texts(&discover.vendor_dirs)
    ));
    let file = "[clones]\nmin_tokens = 50\n\n[report.with_history]\nhotspot = 0.6\n\n[discover]\ntest_dirs = [\"qa\"]\n\n[clumps]\nmin_typed_slots = 1\nprotocol_tuples = [[\"a\", \"b\"]]\n";
    merge_tables(&mut c, &leaves(file));
    assert_eq!(at(&c, "clones.min_tokens"), Some("50"));
    assert_eq!(at(&c, "clones.k"), Some("30"));
    assert_eq!((at(&c, "clumps.min_typed_slots"), at(&c, "clumps.max_group")), (Some("1"), Some("4")));
    assert_eq!(at(&c, "clumps.protocol_tuples"), Some("[[\"a\", \"b\"]]"));
    assert_eq!(at(&c, "report.with_history.hotspot"), Some("0.6"));
    assert_eq!(at(&c, "report.with_history.fixes"), Some("0.15"));
    assert_eq!(at(&c, "discover.test_dirs"), Some("[\"qa\"]"));
    assert_eq!(at(&c, "discover.vendor_dirs"), Some(texts(&discover.vendor_dirs).as_str()));
    // An explicit file layers on top of the root file.
    merge_tables(&mut c, &leaves("[clones]\nk = 40\n"));
    assert_eq!((at(&c, "clones.k"), at(&c, "clones.min_tokens")), (Some("40"), Some("50")));
}

#[test]
fn a_value_takes_the_place_of_a_table_and_a_table_that_of_a_value() {
    let mut c = leaves("a = 1\n[t]\nx = 1\ny = 2\n[e]\n");
    merge_tables(&mut c, &leaves("t = 3\n[a]\nb = 4\n[e]\nz = 5\n"));
    let mut got: Vec<(String, Option<String>)> = c.into_iter().map(|l| (l.path.join("."), l.value)).collect();
    got.sort();
    assert_eq!(got, vec![("a.b".into(), Some("4".into())), ("e.z".into(), Some("5".into())), ("t".into(), Some("3".into()))]);
}

#[test]
fn an_empty_table_says_nothing_over_a_full_one() {
    let mut c = leaves("[t]\nx = 1\n");
    merge_tables(&mut c, &leaves("[t]\n[u]\n"));
    assert_eq!(c.len(), 2);
    assert_eq!(at(&c, "t.x"), Some("1"));
    assert!(c.iter().any(|l| l.path == ["u"] && l.value.is_none()));
    let mut d = leaves("x = 1\n");
    merge_tables(&mut d, &Vec::new());
    assert_eq!((d.len(), at(&d, "x")), (1, Some("1")));
}

#[test]
fn a_layer_is_read_setting_by_setting() {
    let list = leaves("a = 1\n[t]\nx = [\"p\", { q = 2 }]\n[t.u]\ny = true\n[e]\n");
    let mut got: Vec<(String, Option<&str>)> = list.iter().map(|l| (l.path.join("."), l.value.as_deref())).collect();
    got.sort();
    assert_eq!(
        got,
        vec![("a".into(), Some("1")), ("e".into(), None), ("t.u.y".into(), Some("true")), ("t.x".into(), Some("[\"p\", { q = 2 }]"))]
    );
    assert!(leaves("").is_empty());
    assert!(read_layer("a = ").is_none());
}
