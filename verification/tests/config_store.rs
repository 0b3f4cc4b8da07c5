use task_io::config::{
    config_pattern, confirm_save, list_configs, read_config, read_host_config, save_config,
    save_host_config,
};
use task_io::host::{to_dynamic, HostHeap, HostObject};
use task_io::text::{has_suffix, precedes};
use task_io::{DynamicValue, ErrorKind};

fn paths(names: Vec<&str>) -> Vec<Option<String>> {
    names.into_iter().map(|n| Some(n.to_string())).collect()
}

fn number(n: i64) -> DynamicValue {
    DynamicValue::Number(serde_json::Number::from(n))
}

fn settings() -> DynamicValue {
    DynamicValue::Object(vec![
        ("name".to_string(), DynamicValue::String("job".to_string())),
        ("retries".to_string(), number(3)),
        (
            "targets".to_string(),
            DynamicValue::Array(vec![
                DynamicValue::String("a".to_string()),
                DynamicValue::String("b".to_string()),
            ]),
        ),
    ])
}

#[test]
fn pattern_names_the_json_children() {
    assert_eq!(config_pattern("conf"), "conf/*.json");
    assert_eq!(config_pattern(""), "/*.json");
    assert_eq!(config_pattern("/etc/tasks"), "/etc/tasks/*.json");
}

#[test]
fn pattern_matches_only_json_children() {
    let pattern = glob::Pattern::new(&config_pattern("conf")).unwrap();
    let strict = glob::MatchOptions {
        case_sensitive: true,
        require_literal_separator: true,
        require_literal_leading_dot: false,
    };
    assert!(pattern.matches_with("conf/a.json", strict));
    assert!(!pattern.matches_with("conf/a.txt", strict));
    assert!(!pattern.matches_with("conf/a.json.bak", strict));
    assert!(!pattern.matches_with("conf/sub/a.json", strict));
}

#[test]
fn listing_is_ascending() {
    let found = paths(vec!["d/c.json", "d/a.json", "d/b.json"]);
    assert_eq!(list_configs(Some(found)), vec!["d/a.json", "d/b.json", "d/c.json"]);
}

#[test]
fn listing_orders_by_bytes() {
    let found = paths(vec!["d/b.json", "d/B.json", "d/a10.json", "d/a2.json", "d/\u{e9}.json", "d/z.json"]);
    assert_eq!(
        list_configs(Some(found)),
        vec!["d/B.json", "d/a10.json", "d/a2.json", "d/b.json", "d/z.json", "d/\u{e9}.json"]
    );
}

#[test]
fn listing_agrees_with_the_order_of_strings() {
    let names = vec!["x/10.json", "x/9.json", "x/.json", "x/a.json", "x/A.json", "x/a.json", "x/ab.json"];
    let mut want: Vec<String> = names.iter().map(|n| n.to_string()).collect();
    want.sort();
    assert_eq!(list_configs(Some(paths(names))), want);
}

#[test]
fn listing_excludes_other_files() {
    let found = paths(vec!["d/b.json", "d/notes.txt", "d/a.json", "d/a.json.bak", "d/json", "d/.json", "d/c.JSON"]);
    assert_eq!(list_configs(Some(found)), vec!["d/.json", "d/a.json", "d/b.json"]);
}

#[test]
fn suffix_of_texts() {
    assert!(has_suffix("a.json", ".json"));
    assert!(has_suffix(".json", ".json"));
    assert!(has_suffix("x", ""));
    assert!(!has_suffix("json", ".json"));
    assert!(!has_suffix("a.jsonx", ".json"));
    assert!(!has_suffix("a.JSON", ".json"));
    assert!(has_suffix("\u{4e2d}\u{6587}.json", ".json"));
    assert!(!has_suffix("", "a"));
}

#[test]
fn listing_skips_entries_without_a_path() {
    let found = vec![None, Some("d/b.json".to_string()), None, Some("d/a.json".to_string())];
    assert_eq!(list_configs(Some(found)), vec!["d/a.json", "d/b.json"]);
}

#[test]
fn listing_is_empty_where_nothing_was_found() {
    assert_eq!(list_configs(None), Vec::<String>::new());
    assert_eq!(list_configs(Some(vec![])), Vec::<String>::new());
    assert_eq!(list_configs(Some(vec![None, None])), Vec::<String>::new());
}

#[test]
fn order_of_texts() {
    assert!(precedes("a", "b"));
    assert!(!precedes("b", "a"));
    assert!(precedes("a", "a"));
    assert!(precedes("", "a"));
    assert!(!precedes("a", ""));
    assert!(precedes("ab", "abc"));
    assert!(!precedes("abc", "ab"));
    assert!(precedes("Z", "a"));
    assert!(precedes("z", "\u{e9}"));
    assert!(precedes("\u{e9}", "\u{4e2d}"));
}

#[test]
fn read_of_a_missing_file_is_an_io_failure() {
    let e = read_config("missing.json", Err("No such file or directory (os error 2)".to_string()))
        .unwrap_err();
    assert_eq!(e.kind, ErrorKind::Io);
    assert_eq!(e.message, "读取失败 missing.json: No such file or directory (os error 2)");
}

#[test]
fn read_of_malformed_text_is_a_parse_failure() {
    let e = read_config("bad.json", Ok("{invalid".to_string())).unwrap_err();
    assert_eq!(e.kind, ErrorKind::Parse);
    assert_eq!(e.message, "JSON 格式错误 bad.json: key must be a string at line 1 column 2");
}

#[test]
fn read_gives_the_value_of_the_text() {
    let got = read_config("ok.json", Ok("{\"retries\": 3, \"name\": \"job\"}".to_string())).unwrap();
    let want = DynamicValue::Object(vec![
        ("retries".to_string(), number(3)),
        ("name".to_string(), DynamicValue::String("job".to_string())),
    ]);
    assert_eq!(got, want);
}

#[test]
fn save_writes_indented_text() {
    assert_eq!(
        save_config(&settings()).unwrap(),
        "{\n  \"name\": \"job\",\n  \"retries\": 3,\n  \"targets\": [\n    \"a\",\n    \"b\"\n  ]\n}"
    );
}

#[test]
fn save_then_read_gives_the_value_back() {
    let value = settings();
    let written = save_config(&value).unwrap();
    let back = read_config("job.json", Ok(written)).unwrap();
    assert_eq!(back, value);
}

#[test]
fn save_refuses_a_repeated_key() {
    let value = DynamicValue::Object(vec![
        ("a".to_string(), number(1)),
        ("a".to_string(), number(2)),
    ]);
    let e = save_config(&value).unwrap_err();
    assert_eq!(e.kind, ErrorKind::Conversion);
    assert_eq!(e.message, "JSON 序列化失败: duplicate key in object");
}

#[test]
fn write_failure_is_an_io_failure() {
    assert!(confirm_save("out.json", Ok(())).is_ok());
    let e = confirm_save("/ro/out.json", Err("Permission denied (os error 13)".to_string()))
        .unwrap_err();
    assert_eq!(e.kind, ErrorKind::Io);
    assert_eq!(e.message, "写入失败 /ro/out.json: Permission denied (os error 13)");
}

#[test]
fn host_value_is_saved_as_its_tree() {
    let heap = HostHeap {
        objects: vec![
            HostObject::Str("on".to_string()),
            HostObject::Bool(true),
            HostObject::Dict(vec![(0, 1)]),
        ],
    };
    assert_eq!(save_host_config(&heap, 2).unwrap(), "{\n  \"on\": true\n}");
}

#[test]
fn host_value_with_a_cycle_is_not_saved() {
    let heap = HostHeap { objects: vec![HostObject::List(vec![0])] };
    let e = save_host_config(&heap, 0).unwrap_err();
    assert_eq!(e.kind, ErrorKind::Conversion);
    assert_eq!(e.message, "无法转换 Python 对象为 JSON: cyclic reference");
}

#[test]
fn read_hands_on_the_host_form() {
    let (heap, root) = read_host_config("c.json", Ok("{\"a\": [1, {\"b\": null}]}".to_string())).unwrap();
    let back = to_dynamic(&heap, root).unwrap();
    assert_eq!(back, read_config("c.json", Ok("{\"a\": [1, {\"b\": null}]}".to_string())).unwrap());
    let e = read_host_config("c.json", Err("denied".to_string())).unwrap_err();
    assert_eq!(e.kind, ErrorKind::Io);
    let e = read_host_config("c.json", Ok("[".to_string())).unwrap_err();
    assert_eq!(e.kind, ErrorKind::Parse);
}
