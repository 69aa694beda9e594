use workbench_gui::builder::{
    default_preview, link_failed_notice, open_failed_notice, problem_summary, save_blocker,
    save_failed_notice, segments_fit, target_path, display_label, display_label_from, saved_label, saved_label_from, is_modified,
};
use workbench_gui::draft::{ConfigDraft, DraftValues};
use workbench_gui::persist::{Debouncer, WriterEvent};
use workbench_gui::platform::{
    data_dir, data_dir_in, db_path, db_path_in, missing_path_error, per_user_workbench_dir,
    per_user_workbench_dir_in, python_candidates, not_a_directory_error, provision_requested, reveal_command,
    terminal_commands, TargetOs,
};
use workbench_gui::settings::{AppSettings, TaskConfig};
use workbench_gui::sources::{processor_choice, script_label, source_key, uses_csv_field, ProcessorChoice};
use workbench_gui::workflow::{select_sync, SelectSync};
use workbench_gui::yaml::{YamlNumber, YamlValue};

#[test]
fn saved_choices_and_switches_fall_back_to_their_defaults() {
    let mut s = AppSettings::default();
    assert_eq!(s.restored_text("gdrive_link"), None);
    assert_eq!(s.saved_choice("input_source", "google-sheet"), "google-sheet");
    s.set_text("input_source", "csv-file".to_string());
    assert_eq!(s.saved_choice("input_source", "google-sheet"), "csv-file");
    s.set_text("gdrive_link", String::new());
    assert_eq!(s.restored_text("gdrive_link"), None, "an empty value restores nothing");
    assert!(s.show_yaml_panel());
    s.set_bool("builder_show_yaml", false);
    assert!(!s.show_yaml_panel());
    assert!(s.switch_or("missing", true));
}

#[test]
fn the_theme_is_dark_until_chosen_otherwise() {
    let mut s = AppSettings::default();
    assert!(s.dark_theme());
    assert!(s.init_theme());
    assert!(s.values.contains_key("dark_theme"));
    s.set_bool("dark_theme", false);
    assert!(!s.init_theme(), "a saved choice stands");
}

#[test]
fn the_source_and_processor_selections_have_defaults() {
    assert_eq!(source_key(None), "google-sheet");
    assert_eq!(source_key(Some(&"csv-file".to_string())), "csv-file");
    assert!(uses_csv_field("csv-file"));
    assert!(!uses_csv_field("google-sheet"));
    assert!(matches!(processor_choice(None), ProcessorChoice::Builtin));
    assert!(matches!(processor_choice(Some(&"none".to_string())), ProcessorChoice::Passthrough));
}

#[test]
fn the_problem_counter_reads_in_words() {
    assert_eq!(problem_summary(0, 0), vec!["No problems"]);
    assert_eq!(problem_summary(1, 0), vec!["1 problem to fix"]);
    assert_eq!(problem_summary(2, 1), vec!["2 problems to fix", "1 thing to know"]);
    assert_eq!(problem_summary(0, 3), vec!["3 things to know"]);
    assert!(segments_fit(4));
    assert!(!segments_fit(5));
}

#[test]
fn save_notices_name_what_went_wrong() {
    assert_eq!(save_blocker(1, true).as_deref(), Some("Fix the problems below before saving."));
    assert_eq!(
        save_blocker(0, false).as_deref(),
        Some("Set a config folder in Settings before saving a new config.")
    );
    assert_eq!(save_blocker(0, true), None);
    assert_eq!(save_failed_notice("/c.yml", "denied"), "Couldn't save /c.yml: denied");
    assert_eq!(open_failed_notice("/c.yml", "gone"), "Couldn't open /c.yml: gone");
    assert_eq!(link_failed_notice("no parent"), "Saved, but couldn't link child: no parent");
}

#[test]
fn a_new_config_goes_to_the_library_folder_named_after_its_label() {
    let mut settings = AppSettings::default();
    let draft = ConfigDraft { values: DraftValues::new(), label: "My Job".to_string(), path: None };
    assert_eq!(target_path(&draft, &settings), None);
    settings.set_text("workbench_path", "/wb".to_string());
    let p = target_path(&draft, &settings).expect("under the workbench folder");
    assert!(p.starts_with("/wb/g/config") && p.ends_with("my_job.yml"));
    settings.set_text("config_library_dir", "/lib".to_string());
    let p = target_path(&draft, &settings).expect("in the library");
    assert!(p.starts_with("/lib") && p.ends_with("my_job.yml"));
    let saved = ConfigDraft { path: Some("/x/y.yml".to_string()), ..draft };
    assert_eq!(target_path(&saved, &settings).as_deref(), Some("/x/y.yml"));
    assert_eq!(display_label(&saved), "My Job");
    let unnamed = ConfigDraft { values: DraftValues::new(), label: " ".to_string(), path: Some("/x/ingest.yml".to_string()) };
    assert_eq!(display_label(&unnamed), "ingest");
    let fresh = ConfigDraft { values: DraftValues::new(), label: String::new(), path: None };
    assert_eq!(display_label(&fresh), "New config");
    assert_eq!(saved_label("", "/x/ingest.yml"), "ingest");
    assert_eq!(saved_label("Mine", "/x/ingest.yml"), "Mine");
}

#[test]
fn saving_files_the_config_by_its_path_once() {
    let mut s = AppSettings::default();
    let entry = |label: &str| TaskConfig {
        label: label.to_string(),
        task_name: "create".to_string(),
        file_path: "/c.yml".to_string(),
        description: "desc".to_string(),
    };
    s.record_saved_config(entry("first"));
    s.record_saved_config(entry("second"));
    assert_eq!(s.task_configs.len(), 1);
    assert_eq!(s.task_configs[0].label, "second");
    assert_eq!(s.library_description("/c.yml"), "desc");
    assert_eq!(s.library_description("/other.yml"), "");
}

#[test]
fn defaults_preview_short_and_cut_at_24_bytes() {
    assert_eq!(default_preview(&YamlValue::Null), "—");
    assert_eq!(default_preview(&YamlValue::Bool(false)), "false");
    assert_eq!(default_preview(&YamlValue::Number(YamlNumber::PosInt(3))), "3");
    assert_eq!(default_preview(&YamlValue::String("short".to_string())), "short");
    assert_eq!(
        default_preview(&YamlValue::String("abcdefghijklmnopqrstuvwxyz".to_string())),
        "abcdefghijklmnopqrstuvwx…"
    );
    assert_eq!(default_preview(&YamlValue::String("é".repeat(13))), format!("{}…", "é".repeat(12)));
    assert_eq!(default_preview(&YamlValue::Sequence(vec![YamlValue::Null, YamlValue::Null])), "2 items");
    assert_eq!(default_preview(&YamlValue::Mapping(vec![])), "0 entries");
    assert_eq!(default_preview(&YamlValue::Tagged("!t".to_string(), Box::new(YamlValue::Null))), "");
    assert!(is_modified(&YamlValue::Bool(true), &YamlValue::Bool(false)));
    assert!(!is_modified(&YamlValue::Null, &YamlValue::Null));
}

#[test]
fn the_writer_keeps_only_the_newest_snapshot_and_flushes_it_on_shutdown() {
    let mut w: Debouncer<u32> = Debouncer::new();
    assert_eq!(w.step(WriterEvent::Received(1)), (None, false));
    assert_eq!(w.step(WriterEvent::Received(2)), (None, false));
    assert_eq!(w.step(WriterEvent::Timeout), (Some(2), false));
    assert_eq!(w.step(WriterEvent::Timeout), (None, false));
    assert_eq!(w.step(WriterEvent::Received(3)), (None, false));
    assert_eq!(w.step(WriterEvent::Disconnected), (Some(3), true));
    assert_eq!(w.pending, None);
}

#[test]
fn a_dropdown_refills_only_when_its_entries_change() {
    let a = vec!["A".to_string(), "B".to_string()];
    assert!(matches!(select_sync(&a, &a.clone(), None), SelectSync::Unchanged));
    match select_sync(&a, &Vec::new(), Some(&"B".to_string())) {
        SelectSync::Replace { select } => assert_eq!(select.as_deref(), Some("B")),
        _ => panic!("first showing"),
    }
    match select_sync(&a, &vec!["A".to_string()], Some(&"B".to_string())) {
        SelectSync::Replace { select } => assert_eq!(select, None, "a later change keeps the choice"),
        _ => panic!("changed"),
    }
}

fn args(c: &workbench_gui::platform::Command) -> Vec<&str> {
    c.args.iter().map(|a| a.as_str()).collect()
}

#[test]
fn terminals_open_in_the_folder_on_each_platform() {
    let w = terminal_commands(TargetOs::Windows, "C:\\wb", "workbench --check", "");
    assert_eq!(w.len(), 2);
    assert_eq!(w[0].program, "wt");
    assert_eq!(args(&w[0]), ["--startingDirectory", "C:\\wb", "cmd", "/k", "workbench --check"]);
    assert_eq!(args(&w[1]), ["/C", "start", "", "/d", "C:\\wb", "cmd", "/k", "workbench --check"]);

    let m = terminal_commands(TargetOs::MacOs, "/wb", " ", "iTerm.app");
    assert_eq!(m[0].program, "osascript");
    assert_eq!(
        args(&m[0]),
        ["-e", "tell application \"iTerm\" to create window with default profile command \"cd \\\"/wb\\\"\" "]
    );
    let m = terminal_commands(TargetOs::MacOs, "/wb", "", "Apple_Terminal");
    assert_eq!(m[0].program, "open");
    assert_eq!(args(&m[0]), ["-a", "Terminal", "/wb"]);
    let m = terminal_commands(TargetOs::MacOs, "/w\"b", "ls", "Apple_Terminal");
    assert_eq!(args(&m[0]), ["-e", "tell application \"Terminal\" to do script \"cd \\\"/w\\\"b\\\" && ls\""]);

    let l = terminal_commands(TargetOs::Linux, "/wb", "ls", "");
    assert_eq!(l[0].program, "x-terminal-emulator");
    assert_eq!(l[0].current_dir.as_deref(), Some("/wb"));
    assert_eq!(args(&l[0]), ["-e", "sh", "-lc", "ls; exec \"${SHELL:-sh}\""]);
    assert!(terminal_commands(TargetOs::Linux, "/wb", "", "")[0].args.is_empty());
    assert_eq!(not_a_directory_error("/x"), "spawn_terminal_at expects a directory: /x");
}

#[test]
fn revealing_a_path_selects_it_or_opens_its_folder() {
    assert_eq!(args(&reveal_command(TargetOs::Windows, "C:\\a.csv", false, None)), ["/select,C:\\a.csv"]);
    assert_eq!(args(&reveal_command(TargetOs::MacOs, "/a.csv", false, Some("/"))), ["-R", "/a.csv"]);
    assert_eq!(args(&reveal_command(TargetOs::Linux, "/d/a.csv", false, Some("/d"))), ["/d"]);
    assert_eq!(args(&reveal_command(TargetOs::Linux, "/d", true, Some("/"))), ["/d"]);
    assert_eq!(missing_path_error("/nope"), "path does not exist: /nope");
    assert!(provision_requested(Some("1")));
    assert!(!provision_requested(Some("0")));
    assert!(!provision_requested(None));
}

#[test]
fn the_settings_database_lives_in_the_app_folder() {
    match db_path() {
        Ok(p) => assert!(p.ends_with("settings.sqlite3") && p.contains("islandora_workbench_gui")),
        Err(e) => assert_eq!(e, "Failed to resolve local data dir"),
    }
}

#[test]
fn labels_fall_back_to_the_file_name_once_it_is_known() {
    assert_eq!(display_label_from("Job", true, Some("x".to_string())), "Job");
    assert_eq!(display_label_from("  ", true, Some("ingest".to_string())), "ingest");
    assert_eq!(display_label_from("", true, None), "New config");
    assert_eq!(display_label_from("", true, Some(String::new())), "New config");
    assert_eq!(display_label_from("", false, None), "New config");
    assert_eq!(saved_label_from(" ", Some("ingest".to_string())), "ingest");
    assert_eq!(saved_label_from("", None), "Untitled");
    assert_eq!(saved_label_from("Mine", None), "Mine");
    assert_eq!(script_label("/s/clean.py", Some("clean.py".to_string())), "clean.py");
    assert_eq!(script_label("/", None), "/");
    assert_eq!(ProcessorChoice::Script("/s/clean.py".to_string()).label(), "clean.py");
}

#[test]
fn the_app_folders_end_with_their_own_names() {
    if let Some(d) = data_dir() {
        assert!(d.ends_with("islandora_workbench_gui"));
    }
    if let Ok(p) = db_path() {
        assert!(p.ends_with("settings.sqlite3"));
    }
    if let Some(w) = per_user_workbench_dir() {
        assert!(w.ends_with("islandora_workbench"));
    }
}

#[test]
fn the_app_folders_are_built_from_the_data_folder_they_are_given() {
    let sep = std::path::MAIN_SEPARATOR;
    assert_eq!(data_dir_in(None), None);
    assert_eq!(data_dir_in(Some("/d".to_string())), Some(format!("/d{sep}islandora_workbench_gui")));
    assert_eq!(
        db_path_in(None),
        Err("Failed to resolve local data dir".to_string())
    );
    assert_eq!(
        db_path_in(Some("/d".to_string())),
        Ok(format!("/d{sep}islandora_workbench_gui{sep}settings.sqlite3"))
    );
    assert_eq!(per_user_workbench_dir_in(None), None);
    assert_eq!(
        per_user_workbench_dir_in(Some("/d".to_string())),
        Some(format!("/d{sep}islandora_workbench_gui{sep}islandora_workbench"))
    );
}

#[test]
fn python_is_also_looked_for_as_python3_off_windows() {
    assert_eq!(python_candidates(true), vec!["python.exe", "python"]);
    assert_eq!(python_candidates(false), vec!["python", "python3"]);
}

#[test]
fn a_draft_without_a_readable_stem_still_shows_a_name() {
    let mut d = ConfigDraft { values: DraftValues::new(), label: String::new(), path: Some("/x/..".to_string()) };
    assert_eq!(display_label(&d), "New config");
    d.path = Some("/x/.hidden".to_string());
    assert_eq!(display_label(&d), ".hidden");
    d.path = Some("/x/a.b.yml".to_string());
    assert_eq!(display_label(&d), "a.b");
    assert_eq!(saved_label("", "/lib/job.yml"), "job");
}

#[test]
fn whitespace_is_exactly_what_std_calls_whitespace() {
    for n in 0u32..=0x10FFFF {
        if let Some(c) = char::from_u32(n) {
            assert_eq!(workbench_gui::text::is_blank_str(&c.to_string()), c.is_whitespace(), "{n:#x}");
        }
    }
    assert_eq!(workbench_gui::text::trim_str("\u{3000} 7\u{85}"), "7");
}

#[test]
fn a_folder_gets_one_separator_before_the_app_folder() {
    let sep = std::path::MAIN_SEPARATOR;
    assert_eq!(data_dir_in(Some("/d/".to_string())), Some("/d/islandora_workbench_gui".to_string()));
    assert_eq!(data_dir_in(Some(String::new())), Some("islandora_workbench_gui".to_string()));
    assert_eq!(
        db_path_in(Some("/home/u/.local/share".to_string())),
        Ok(format!("/home/u/.local/share{sep}islandora_workbench_gui{sep}settings.sqlite3"))
    );
}
