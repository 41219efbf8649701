use scry::deps::tsconfig::{read_config, strip_jsonc, wanted, ConfigFile, TsConfigs};

#[test]
fn jsonc_comments_and_trailing_commas_are_tolerated() {
    let s = "{\n  // c\n  \"a\": [1, 2,], /* d */ \"b\": \"x//y\",\n}";
    let v: serde_json::Value = serde_json::from_str(&strip_jsonc(s)).unwrap();
    assert_eq!(v["a"], serde_json::Value::from(vec![1, 2]));
    assert_eq!(v["b"], "x//y");
}

/// Reads the configs at `rels` and what they extend, as a disk holding `files` would hand them out.
fn load(files: &[(&str, &str)], rels: &[&str]) -> TsConfigs {
    let text = |rel: &str| files.iter().find(|f| f.0 == rel).map_or("", |f| f.1);
    let rels: Vec<String> = rels.iter().map(|r| r.to_string()).collect();
    let mut read: Vec<ConfigFile> = rels.iter().map(|r| read_config(r, text(r))).collect();
    loop {
        let more = wanted(&read);
        if more.is_empty() {
            return TsConfigs::new(&read, &rels);
        }
        for rel in more {
            read.push(read_config(&rel, text(&rel)));
        }
    }
}

#[test]
fn nearest_config_paths_and_extends() {
    let files = [
        (
            "tsconfig.base.json",
            "{ \"compilerOptions\": { \"baseUrl\": \".\", \"paths\": { \"sentry/*\": [\"./static/app/*\"], \"lodash\": [\"./shims/lodash\"] } } }",
        ),
        ("tsconfig.json", "{ \"extends\": \"./tsconfig.base\", // root\n \"include\": [\"static\"], }"),
        ("packages/web/tsconfig.json", "{ \"compilerOptions\": { \"paths\": { \"@web/*\": [\"./src/*\"] } } }"),
    ];
    let ts = load(&files, &["tsconfig.json", "packages/web/tsconfig.json"]);
    assert_eq!(ts.candidates("static/app/views", "sentry/utils/x"), vec!["static/app/utils/x", "sentry/utils/x"]);
    assert_eq!(ts.candidates("static/app", "lodash"), vec!["shims/lodash", "lodash"]);
    // The nearer config applies below packages/web and has no baseUrl.
    assert_eq!(ts.candidates("packages/web/src", "@web/a"), vec!["packages/web/src/a"]);
    assert!(ts.candidates("packages/web/src", "sentry/x").is_empty());
}

#[test]
fn a_text_without_comments_and_commas_is_kept() {
    assert_eq!(strip_jsonc("{ \"a\": [ 1 ] }"), "{ \"a\": [ 1 ] }");
    assert_eq!(strip_jsonc("\"a\\\" // b\""), "\"a\\\" // b\"");
    assert_eq!(strip_jsonc("1 /* open"), "1 ");
    let strict = "{\"a//b\": [1, 2], \"c,]\": {\"d\": \"/* e */,}\"}, \"f\": []}";
    assert_eq!(strip_jsonc(strict), strict);
}

#[test]
fn an_exact_key_beats_a_star_and_an_invalid_config_says_nothing() {
    let files = [
        ("tsconfig.json", "{\"compilerOptions\": {\"paths\": {\"a*\": [\"star/*\"], \"ab\": [\"exact\"], \"abc/*\": [\"long/*\"]}}}"),
        ("bad/tsconfig.json", "{ nonsense"),
    ];
    let ts = load(&files, &["tsconfig.json", "bad/tsconfig.json"]);
    assert_eq!(ts.candidates("src", "ab"), vec!["exact"]);
    assert_eq!(ts.candidates("src", "abc/d"), vec!["long/d"]);
    assert_eq!(ts.candidates("src", "ax"), vec!["star/x"]);
    assert!(ts.candidates("bad/src", "ab").is_empty());
}
