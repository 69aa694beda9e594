use workbench_gui::builder::{
    config_file_name, draft_task, editable_keys, ensure_search_selection, field_id, locked_source,
    preview_lines, problem_chips, row_note, split_lines, widget_belongs_to, count, Problem,
    Severity,
};
use workbench_gui::catalog::{empty_value, Browse, SettingDef, Shape};
use workbench_gui::draft::DraftValues;
use workbench_gui::editors::{
    add_setting, apply_template, normalise_to_mapping, parse_i64, parse_scalar, push_inner_item,
    push_row, read_widgets, remove_row, remove_setting, rows_of, scalar_text, string_list,
    value_from_widgets, WidgetReads,
};
use workbench_gui::flow::{block_text, flow_document};
use workbench_gui::yaml::{YamlNumber, YamlValue};

fn s(t: &str) -> YamlValue {
    YamlValue::String(t.to_string())
}

fn num(n: u64) -> YamlValue {
    YamlValue::Number(YamlNumber::PosInt(n))
}

fn map(entries: Vec<(YamlValue, YamlValue)>) -> YamlValue {
    YamlValue::Mapping(entries)
}

fn def(key: &str, shape: Shape, default: YamlValue) -> SettingDef {
    SettingDef {
        key: key.to_string(),
        group: "G".to_string(),
        description: String::new(),
        shape,
        default,
        required: false,
        locked: false,
        choices: Vec::new(),
        unit: None,
        tokens: Vec::new(),
        browse: Browse::default_browse(),
    }
}

fn rows(shape: Shape, v: &YamlValue) -> Vec<(String, Vec<String>)> {
    rows_of(shape, v)
}

#[test]
fn scalars_show_as_typed_text() {
    assert_eq!(scalar_text(&s("abc")), "abc");
    assert_eq!(scalar_text(&YamlValue::Bool(true)), "true");
    assert_eq!(scalar_text(&num(500)), "500");
    assert_eq!(scalar_text(&YamlValue::Number(YamlNumber::NegInt(-3))), "-3");
    assert_eq!(scalar_text(&YamlValue::Null), "");
}

#[test]
fn a_nested_value_shows_as_its_block_yaml() {
    let list = YamlValue::Sequence(vec![s("a"), s("b: c"), num(1)]);
    assert_eq!(scalar_text(&list), "- a\n- 'b: c'\n- 1");
    let m = map(vec![(s("k"), s("v"))]);
    assert_eq!(scalar_text(&m), "k: v");
    assert_eq!(block_text(&YamlValue::Sequence(vec![])), "[]");
    let quoted = s("say \"hi\"\\\n\u{1}");
    assert_eq!(flow_document(&quoted), "\"say \\\"hi\\\"\\\\\\n\\u0001\"");
    let tagged = YamlValue::Tagged("!Thing".to_string(), Box::new(s("x")));
    assert_eq!(scalar_text(&tagged), "!Thing x");
}

#[test]
fn list_and_map_shapes_become_rows() {
    let list = YamlValue::Sequence(vec![s("a"), num(2)]);
    assert_eq!(rows(Shape::ListOfStrings, &list), vec![("a".to_string(), vec![]), ("2".to_string(), vec![])]);
    assert_eq!(rows(Shape::CommandList, &s("one")), vec![("one".to_string(), vec![])]);
    assert!(rows(Shape::ListOfNumbers, &YamlValue::Null).is_empty());

    let m = map(vec![(s("k1"), s("v1")), (s("k2"), YamlValue::Sequence(vec![s("x"), s("y")]))]);
    assert_eq!(
        rows(Shape::Mapping, &m),
        vec![("k1".to_string(), vec!["v1".to_string()]), ("k2".to_string(), vec!["- x\n- y".to_string()])]
    );
    assert_eq!(
        rows(Shape::MapOfLists, &m),
        vec![("k1".to_string(), vec!["v1".to_string()]), ("k2".to_string(), vec!["x".to_string(), "y".to_string()])]
    );

    let one_key_maps = YamlValue::Sequence(vec![
        map(vec![(s("a"), s("1")), (s("ignored"), s("2"))]),
        s("not a map"),
        map(vec![]),
        YamlValue::Tagged("!t".to_string(), Box::new(map(vec![(s("b"), s("3"))]))),
    ]);
    assert_eq!(
        rows(Shape::ListOfOneKeyMaps, &one_key_maps),
        vec![("a".to_string(), vec!["1".to_string()]), ("b".to_string(), vec!["3".to_string()])]
    );
    assert_eq!(rows(Shape::MapOfLists, &one_key_maps)[0], ("a".to_string(), vec!["1".to_string()]));
    assert!(rows(Shape::String, &s("x")).is_empty());
    assert_eq!(string_list(&s("solo")), vec!["solo".to_string()]);
}

#[test]
fn typed_numbers_stay_numbers_and_everything_else_stays_text() {
    assert!(matches!(parse_scalar(" 500 ", true), YamlValue::Number(YamlNumber::PosInt(500))));
    assert!(matches!(parse_scalar("-7", true), YamlValue::Number(YamlNumber::NegInt(-7))));
    assert!(matches!(parse_scalar("+7", true), YamlValue::Number(YamlNumber::PosInt(7))));
    match parse_scalar(" 5x ", true) {
        YamlValue::String(t) => assert_eq!(t, " 5x "),
        _ => panic!("not a number"),
    }
    assert!(matches!(parse_scalar("500", false), YamlValue::String(_)));
    let digits = |t: &str| parse_i64(&t.chars().collect::<Vec<char>>());
    assert_eq!(digits("9223372036854775807"), Some(i64::MAX));
    assert_eq!(digits("9223372036854775808"), None);
    assert_eq!(digits("-9223372036854775808"), Some(i64::MIN));
    assert_eq!(digits("-9223372036854775809"), None);
    assert_eq!(digits("-"), None);
    assert_eq!(digits("+"), None);
    assert_eq!(digits(""), None);
    assert_eq!(digits("007"), Some(7));
}

#[test]
fn adding_rows_fills_in_an_empty_item_of_the_shape() {
    let mut v = DraftValues::new();
    push_row(&mut v, &def("media", Shape::ListOfNumbers, YamlValue::Null));
    push_row(&mut v, &def("media", Shape::ListOfNumbers, YamlValue::Null));
    assert!(matches!(v.get("media"), Some(YamlValue::Sequence(items)) if items.len() == 2));

    push_row(&mut v, &def("fields", Shape::MapOfLists, YamlValue::Null));
    push_row(&mut v, &def("fields", Shape::MapOfLists, YamlValue::Null));
    match v.get("fields") {
        Some(YamlValue::Mapping(m)) => assert_eq!(m.len(), 1, "the empty key is reused"),
        _ => panic!("a map"),
    }
    push_inner_item(&mut v, "fields", 0);
    assert_eq!(rows(Shape::MapOfLists, v.get("fields").unwrap())[0].1.len(), 2);

    let mut w = DraftValues::new();
    w.insert("m".to_string(), YamlValue::Sequence(vec![map(vec![(s("a"), s("1"))]), map(vec![(s("b"), s("2"))])]));
    push_row(&mut w, &def("m", Shape::Mapping, YamlValue::Null));
    assert_eq!(rows(Shape::Mapping, w.get("m").unwrap()).len(), 3, "the list form is flattened first");

    let mut k = DraftValues::new();
    push_row(&mut k, &def("pairs", Shape::ListOfOneKeyMaps, YamlValue::Null));
    assert_eq!(rows(Shape::ListOfOneKeyMaps, k.get("pairs").unwrap()), vec![(String::new(), vec![String::new()])]);
}

#[test]
fn removing_a_row_keeps_list_order_and_moves_the_last_map_entry_in() {
    let mut v = DraftValues::new();
    v.insert("l".to_string(), YamlValue::Sequence(vec![s("a"), s("b"), s("c")]));
    remove_row(&mut v, "l", 0);
    assert_eq!(rows(Shape::ListOfStrings, v.get("l").unwrap()), vec![("b".to_string(), vec![]), ("c".to_string(), vec![])]);
    remove_row(&mut v, "l", 9);
    assert_eq!(rows(Shape::ListOfStrings, v.get("l").unwrap()).len(), 2);

    v.insert("m".to_string(), map(vec![(s("a"), s("1")), (s("b"), s("2")), (s("c"), s("3"))]));
    remove_row(&mut v, "m", 0);
    let keys: Vec<String> = rows(Shape::Mapping, v.get("m").unwrap()).into_iter().map(|r| r.0).collect();
    assert_eq!(keys, ["c", "b"]);
    remove_row(&mut v, "missing", 0);
    assert!(!v.contains_key("missing"));
}

#[test]
fn a_flattened_map_takes_each_entry_in_turn() {
    let v = YamlValue::Sequence(vec![
        map(vec![(s("a"), s("1"))]),
        s("skip"),
        map(vec![(s("a"), s("2")), (s("b"), s("3"))]),
    ]);
    let m = normalise_to_mapping(&v);
    assert_eq!(m.len(), 2);
    assert!(matches!(&m[0].1, YamlValue::String(t) if t == "2"));
    assert!(normalise_to_mapping(&s("x")).is_empty());
}

#[test]
fn settings_are_added_with_their_default_and_removed_keeping_order() {
    let mut v = DraftValues::new();
    add_setting(&mut v, &def("a", Shape::Integer, YamlValue::Null));
    add_setting(&mut v, &def("b", Shape::String, s("dflt")));
    add_setting(&mut v, &def("c", Shape::Boolean, YamlValue::Tagged("!n".to_string(), Box::new(YamlValue::Null))));
    assert!(matches!(v.get("a"), Some(YamlValue::Number(_))));
    assert!(matches!(v.get("c"), Some(YamlValue::Bool(false))));
    v.insert("b".to_string(), s("edited"));
    add_setting(&mut v, &def("b", Shape::String, s("dflt")));
    assert!(matches!(v.get("b"), Some(YamlValue::String(t)) if t == "edited"));
    remove_setting(&mut v, "a");
    assert_eq!(v.keys(), vec!["b".to_string(), "c".to_string()]);
    assert!(matches!(empty_value(Shape::NullableEnum), YamlValue::Null));
}

#[test]
fn a_template_sets_the_task_and_adds_its_settings() {
    let mut v = DraftValues::new();
    let task = def("task", Shape::Enum, s("create"));
    let extra = def("media_use_tid", Shape::String, YamlValue::Null);
    apply_template(&mut v, Some(&task), "update", &vec![&extra]);
    assert_eq!(draft_task(&v), "update");
    assert!(v.contains_key("media_use_tid"));
}

#[test]
fn widgets_read_back_into_values() {
    let reads = WidgetReads {
        text: "42".to_string(),
        selected: Some(String::new()),
        cells: vec!["1".to_string(), "x".to_string()],
        pairs: vec![("k".to_string(), "v1".to_string()), ("k".to_string(), "v2".to_string())],
        lists: vec![("k".to_string(), vec!["a".to_string()])],
    };
    assert!(value_from_widgets(Shape::Boolean, &reads).is_none());
    assert!(matches!(value_from_widgets(Shape::Integer, &reads), Some(YamlValue::Number(YamlNumber::PosInt(42)))));
    assert!(matches!(value_from_widgets(Shape::NullableEnum, &reads), Some(YamlValue::Null)));
    match value_from_widgets(Shape::ListOfNumbers, &reads) {
        Some(YamlValue::Sequence(items)) => {
            assert!(matches!(items[0], YamlValue::Number(_)));
            assert!(matches!(items[1], YamlValue::String(_)));
        }
        _ => panic!("a sequence"),
    }
    match value_from_widgets(Shape::Mapping, &reads) {
        Some(YamlValue::Mapping(m)) => {
            assert_eq!(m.len(), 1, "a repeated key keeps one entry");
            assert!(matches!(&m[0].1, YamlValue::String(t) if t == "v2"));
        }
        _ => panic!("a mapping"),
    }
    assert!(matches!(value_from_widgets(Shape::ListOfOneKeyMaps, &reads), Some(YamlValue::Sequence(items)) if items.len() == 2));
    assert!(matches!(value_from_widgets(Shape::MapOfLists, &reads), Some(YamlValue::Mapping(m)) if m.len() == 1));
    let mut v = DraftValues::new();
    assert!(read_widgets(&v, "n", Shape::Integer, &reads).is_none());
    v.insert("n".to_string(), num(1));
    assert!(read_widgets(&v, "n", Shape::Integer, &reads).is_some());
}

#[test]
fn widget_ids_join_their_parts_and_belong_to_their_setting() {
    let id = field_id(&vec!["media_types".to_string(), "1".to_string(), "l".to_string(), "2".to_string()]);
    assert_eq!(id, "media_types#1#l#2");
    assert!(widget_belongs_to("media_types", "media_types"));
    assert!(widget_belongs_to("media_types#0", "media_types"));
    assert!(!widget_belongs_to("media_types_extra", "media_types"));
}

#[test]
fn a_new_config_is_named_after_its_label() {
    assert_eq!(config_file_name("  My Ingest Job "), "my_ingest_job.yml");
    assert_eq!(config_file_name("   "), "new_config.yml");
    assert_eq!(locked_source("host"), "Ingest server");
    assert_eq!(locked_source("credentials_file_path"), "App settings");
    assert_eq!(locked_source("input_csv"), "Processed sheet");
    assert_eq!(locked_source("other"), "The app");
}

fn problem(key: Option<&str>, severity: Severity, message: &str) -> Problem {
    Problem { key: key.map(|k| k.to_string()), severity, message: message.to_string() }
}

#[test]
fn a_row_shows_its_most_serious_problem_and_the_preview_marks_its_lines() {
    let problems = vec![
        problem(Some("host"), Severity::Warn, "odd host"),
        problem(Some("host"), Severity::Error, "no host"),
        problem(Some("media"), Severity::Warn, "odd media"),
        problem(None, Severity::Error, "global"),
    ];
    assert_eq!(count(&problems, Severity::Error), 2);
    assert_eq!(row_note(&problems, "host"), Some((Severity::Error, "no host".to_string())));
    assert_eq!(row_note(&problems, "media"), Some((Severity::Warn, "odd media".to_string())));
    assert_eq!(row_note(&problems, "task"), None);

    let yaml = "task: create\nhost: x\nmedia:\n- a\n  - b\r\n";
    assert_eq!(split_lines(yaml), vec!["task: create", "host: x", "media:", "- a", "  - b"]);
    let lines = preview_lines(yaml, &problems);
    let marks: Vec<Option<Severity>> = lines.iter().map(|l| l.severity).collect();
    assert_eq!(marks, [None, Some(Severity::Error), Some(Severity::Warn), Some(Severity::Warn), Some(Severity::Warn)]);
    assert_eq!(problem_chips(&lines), vec!["line 2: error", "line 3: warning", "line 4: warning", "line 5: warning"]);
    assert_eq!(split_lines("a\r"), vec!["a\r"]);
    assert_eq!(split_lines(""), Vec::<String>::new());
    assert_eq!(split_lines("\n"), vec![""]);
}

#[test]
fn the_settings_list_and_the_search_selection_skip_what_is_already_there() {
    let mut v = DraftValues::new();
    v.insert("task".to_string(), s("create"));
    v.insert("secondary_tasks".to_string(), YamlValue::Sequence(vec![]));
    v.insert("host".to_string(), s("h"));
    v.insert("media".to_string(), s("m"));
    assert_eq!(editable_keys(&v, &vec!["host".to_string()]), vec!["task", "media"]);

    let keys = vec!["task".to_string(), "log_file_path".to_string(), "rollback_dir".to_string()];
    assert_eq!(ensure_search_selection(&keys, None, &v), Some("log_file_path".to_string()));
    assert_eq!(ensure_search_selection(&keys, Some(&"rollback_dir".to_string()), &v), Some("rollback_dir".to_string()));
    assert_eq!(ensure_search_selection(&keys, Some(&"task".to_string()), &v), Some("log_file_path".to_string()));
    let all = vec!["task".to_string()];
    assert_eq!(ensure_search_selection(&all, None, &v), None);
}

#[test]
fn a_template_keeps_what_is_set_and_seeds_the_rest() {
    let mut v = DraftValues::new();
    v.insert("log_file_path".to_string(), s("mine.log"));
    let task = def("task", Shape::Enum, s("create"));
    let log = def("log_file_path", Shape::String, s("workbench.log"));
    let flag = def("delete_media", Shape::Boolean, YamlValue::Null);
    let retries = def("retries", Shape::Integer, num(3));
    apply_template(&mut v, Some(&task), "delete", &vec![&log, &flag, &retries]);
    assert_eq!(
        v.keys(),
        vec!["log_file_path".to_string(), "task".to_string(), "delete_media".to_string(), "retries".to_string()]
    );
    assert!(matches!(v.get("log_file_path"), Some(YamlValue::String(t)) if t == "mine.log"));
    assert!(matches!(v.get("task"), Some(YamlValue::String(t)) if t == "delete"));
    assert!(matches!(v.get("delete_media"), Some(YamlValue::Bool(false))));
    assert!(matches!(v.get("retries"), Some(YamlValue::Number(YamlNumber::PosInt(3)))));
}
