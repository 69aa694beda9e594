use workbench_gui::persist::{default_persist_settings_version, PersistSettings, PersistVal};
use workbench_gui::settings::{
    AppSettings, CheckResult, MainWindowBounds, ServerConfig, TaskConfig, Val, SETTINGS_SCHEMA_VERSION,
};

fn task(label: &str, name: &str, path: &str) -> TaskConfig {
    TaskConfig {
        label: label.to_string(),
        task_name: name.to_string(),
        file_path: path.to_string(),
        description: String::new(),
    }
}

fn server(label: &str, url: &str, creds: &str) -> ServerConfig {
    ServerConfig {
        label: label.to_string(),
        server_url: url.to_string(),
        credentials_file: creds.to_string(),
        needs_confirmation: false,
        last_check: None,
    }
}

fn check(at: u64) -> CheckResult {
    CheckResult { at, reachable: true, credentials_ok: Some(true), message: "ok".to_string() }
}

#[test]
fn a_switch_reads_as_text_and_text_reads_as_a_switch() {
    assert_eq!(Val::Bool(true).text(), "true");
    assert_eq!(Val::Bool(false).text(), "false");
    assert!(Val::Text("true".to_string()).bool());
    assert!(!Val::Text("yes".to_string()).bool());
    assert!(!Val::Text("True".to_string()).bool());
    assert_eq!(Val::Text("x".to_string()).text(), "x");
    // A switch written as text reads back as the same switch.
    assert!(Val::Text(Val::Bool(true).text()).bool());
    assert!(!Val::Text(Val::Bool(false).text()).bool());
}

#[test]
fn setting_a_value_replaces_it_in_place() {
    let mut s = AppSettings::default();
    s.set_text("a", "1".to_string());
    s.set_bool("b", true);
    s.set_text("a", "2".to_string());
    let keys: Vec<&str> = s.values.entries().iter().map(|(k, _)| k.as_str()).collect();
    assert_eq!(keys, ["a", "b"]);
    assert_eq!(s.values.get("a").map(|v| v.text()), Some("2".to_string()));
    s.values.remove("a");
    assert!(!s.values.contains_key("a"));
    assert!(s.values.contains_key("b"));
}

#[test]
fn an_incomplete_task_config_is_ignored() {
    let mut s = AppSettings::default();
    s.upsert_task_config(None, task("", "create", "/c.yml"));
    s.upsert_task_config(None, task("L", "", "/c.yml"));
    s.upsert_task_config(None, task("L", "create", ""));
    assert!(s.task_configs.is_empty());
}

#[test]
fn upsert_appends_or_replaces_and_remove_drops_by_index() {
    let mut s = AppSettings::default();
    s.upsert_task_config(None, task("A", "create", "/a.yml"));
    s.upsert_task_config(Some(7), task("B", "update", "/b.yml"));
    assert_eq!(s.task_configs.len(), 2);
    s.upsert_task_config(Some(0), task("A2", "create", "/a.yml"));
    assert_eq!(s.task_configs[0].label, "A2");
    s.remove_task_config(5);
    assert_eq!(s.task_configs.len(), 2);
    s.remove_task_config(0);
    assert_eq!(s.task_configs.len(), 1);
    assert_eq!(s.task_configs[0].label, "B");
}

#[test]
fn editing_a_server_label_keeps_its_last_test_but_a_new_url_does_not() {
    let mut s = AppSettings::default();
    s.upsert_server_config(None, server("Prod", "https://a", "/c.yml"));
    s.set_server_check(0, check(10));
    assert!(s.server_configs[0].last_check.is_some());
    s.upsert_server_config(Some(0), server("Production", "https://a", "/c.yml"));
    assert_eq!(s.server_configs[0].label, "Production");
    assert_eq!(s.server_configs[0].last_check.as_ref().map(|c| c.at), Some(10));
    s.upsert_server_config(Some(0), server("Production", "https://b", "/c.yml"));
    assert!(s.server_configs[0].last_check.is_none());
    s.upsert_server_config(None, server("", "https://c", ""));
    assert_eq!(s.server_configs.len(), 1);
    s.set_server_check(3, check(20));
    s.remove_server_config(0);
    assert!(s.server_configs.is_empty());
}

#[test]
fn the_add_forms_file_their_fields_and_clear_them() {
    let mut s = AppSettings::default();
    s.set_text("new_task_label", "Ingest".to_string());
    s.set_text("new_task_name", "create".to_string());
    s.add_task_config();
    assert!(s.task_configs.is_empty(), "a missing path keeps the form as it is");
    s.set_text("new_task_path", "/c.yml".to_string());
    s.add_task_config();
    assert_eq!(s.task_configs.len(), 1);
    assert_eq!(s.task_configs[0].file_path, "/c.yml");
    assert!(!s.values.contains_key("new_task_label"));
    assert!(!s.values.contains_key("new_task_path"));

    s.set_text("new_server_label", "Prod".to_string());
    s.set_text("new_server_url", "https://a".to_string());
    s.set_text("new_credentials_file", "/creds.yml".to_string());
    s.add_server_config();
    assert_eq!(s.server_configs.len(), 1);
    assert!(!s.server_configs[0].needs_confirmation);
    assert!(!s.values.contains_key("new_server_url"));
}

#[test]
fn check_ages_read_in_the_largest_whole_unit() {
    let c = check(1_000);
    assert_eq!(c.age_at(1_000), "just now");
    assert_eq!(c.age_at(1_059), "just now");
    assert_eq!(c.age_at(1_060), "1 min ago");
    assert_eq!(c.age_at(1_000 + 3_599), "59 min ago");
    assert_eq!(c.age_at(1_000 + 7_200), "2 h ago");
    assert_eq!(c.age_at(1_000 + 3 * 86_400), "3 days ago");
    // A clock that went backwards reads as just now.
    assert_eq!(c.age_at(10), "just now");
    assert!(c.is_ok());
    let failed = CheckResult { at: 0, reachable: true, credentials_ok: Some(false), message: String::new() };
    assert!(!failed.is_ok());
    let unreachable = CheckResult { at: 0, reachable: false, credentials_ok: None, message: String::new() };
    assert!(!unreachable.is_ok());
}

#[test]
fn fresh_settings_are_empty_at_the_current_schema() {
    let s = AppSettings::default();
    assert!(s.values.entries().is_empty());
    assert_eq!(s.settings_schema_version, SETTINGS_SCHEMA_VERSION);
    assert_eq!(default_persist_settings_version(), 1);
}

#[test]
fn saving_and_loading_gives_the_same_settings_at_the_current_schema() {
    let mut s = AppSettings::default();
    s.settings_schema_version = 1;
    s.set_text("workbench_path", "/wb".to_string());
    s.set_bool("use_uv", true);
    s.upsert_task_config(None, TaskConfig { description: "d".to_string(), ..task("A", "create", "/a.yml") });
    s.upsert_server_config(None, server("Prod", "https://a", "/c.yml"));
    s.set_server_check(0, check(5));
    s.main_window_bounds = Some(MainWindowBounds { width_bits: 1, height_bits: 2, display_id: Some(3) });
    s.set_default_server(Some("https://a".to_string()));

    let p = PersistSettings::from_settings(&s);
    assert_eq!(p.settings_version, SETTINGS_SCHEMA_VERSION);
    let back = AppSettings::from_persist(p);
    assert_eq!(back.settings_schema_version, SETTINGS_SCHEMA_VERSION);
    assert_eq!(back.values.get("workbench_path").map(|v| v.text()), Some("/wb".to_string()));
    assert!(back.values.get("use_uv").map(|v| v.bool()).unwrap_or(false));
    assert_eq!(back.task_configs[0].description, "d");
    assert_eq!(back.server_configs[0].last_check.as_ref().map(|c| c.at), Some(5));
    assert_eq!(back.main_window_bounds.as_ref().and_then(|b| b.display_id), Some(3));
    assert_eq!(back.default_server.as_deref(), Some("https://a"));
    assert_eq!(back.default_task_config, None);
}

#[test]
fn a_record_naming_a_value_twice_loads_its_last_value() {
    let p = PersistSettings {
        settings_version: 1,
        values: vec![
            ("k".to_string(), PersistVal::Text("first".to_string())),
            ("k".to_string(), PersistVal::Bool(true)),
        ],
        task_configs: Vec::new(),
        server_configs: Vec::new(),
        main_window_bounds: None,
        default_task_config: None,
        default_server: None,
    };
    let s = AppSettings::from_persist(p);
    assert_eq!(s.settings_schema_version, 1);
    assert_eq!(s.values.entries().len(), 1);
    assert_eq!(s.values.get("k").map(|v| v.text()), Some("true".to_string()));
}

#[test]
fn a_path_setting_is_trimmed_and_blank_means_unset() {
    let mut s = AppSettings::default();
    assert_eq!(s.path_setting("workbench_path"), None);
    s.set_text("workbench_path", "   ".to_string());
    assert_eq!(s.path_setting("workbench_path"), None);
    s.set_text("workbench_path", "  /opt/wb \n".to_string());
    assert_eq!(s.path_setting("workbench_path"), Some("/opt/wb".to_string()));
    assert_eq!(s.value_text("missing"), "");
}
