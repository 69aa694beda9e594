use workbench_gui::sources::{processor_items_for_listing, py_scripts};
use workbench_gui::platform::{escape_applescript, exe_candidates, workbench_input_data_dir};
use workbench_gui::settings::AppSettings;
use workbench_gui::sources::{
    is_py_extension, processor_for, processor_items, source_items, ProcessorChoice, PROCESSOR_BUILTIN,
    PROCESSOR_NONE, SOURCE_CSV, SOURCE_SHEET,
};

#[test]
fn windows_also_looks_for_exe_names_first() {
    assert_eq!(exe_candidates("python", true), vec!["python.exe", "python"]);
    assert_eq!(exe_candidates("uv", true), vec!["uv.exe", "uv"]);
    assert_eq!(exe_candidates("git", true), vec!["git"]);
    assert_eq!(exe_candidates("python", false), vec!["python"]);
}

#[test]
fn applescript_strings_escape_backslashes_and_quotes() {
    assert_eq!(escape_applescript(r#"cd "C:\x""#), r#"cd \"C:\\x\""#);
    assert_eq!(escape_applescript("plain"), "plain");
}

#[test]
fn the_input_folder_sits_under_the_workbench_folder() {
    let mut s = AppSettings::default();
    assert_eq!(workbench_input_data_dir(&s), None);
    s.set_text("workbench_path", " /wb ".to_string());
    let dir = workbench_input_data_dir(&s).expect("set");
    assert!(dir.starts_with("/wb"));
    assert!(dir.ends_with("input_data"));
}

#[test]
fn a_dropdown_value_names_its_processor() {
    assert!(matches!(processor_for(PROCESSOR_BUILTIN), ProcessorChoice::Builtin));
    assert!(matches!(processor_for(PROCESSOR_NONE), ProcessorChoice::Passthrough));
    match processor_for("/scripts/clean.py") {
        ProcessorChoice::Script(p) => assert_eq!(p, "/scripts/clean.py"),
        _ => panic!("anything else is a script path"),
    }
    assert!(processor_for("/scripts/clean.py").needs_workbench());
    assert!(!processor_for("builtin").needs_workbench());
    assert!(!processor_for("none").needs_workbench());
    assert_eq!(ProcessorChoice::Builtin.label(), "Workbench preprocessor");
    assert_eq!(ProcessorChoice::Passthrough.label(), "no processor");
    assert_eq!(ProcessorChoice::Script("/s/clean.py".to_string()).label(), "clean.py");
}

#[test]
fn the_processor_list_sorts_scripts_between_the_builtin_and_none() {
    let items = processor_items(vec!["/s/zeta.py".to_string(), "/s/alpha.py".to_string()]);
    let values: Vec<&str> = items.iter().map(|i| i.value.as_str()).collect();
    assert_eq!(values, ["builtin", "/s/alpha.py", "/s/zeta.py", "none"]);
    assert_eq!(items[1].label, "alpha.py");
    assert!(items[1].divider_above);
    assert!(!items[2].divider_above);
    assert!(items[3].divider_above);
    assert_eq!(processor_items(Vec::new()).len(), 2);
}

#[test]
fn sources_are_the_sheet_then_a_csv_file() {
    let items = source_items();
    assert_eq!(items[0].value, SOURCE_SHEET);
    assert_eq!(items[1].value, SOURCE_CSV);
    assert!(items[1].divider_above);
    assert!(is_py_extension("py"));
    assert!(is_py_extension("PY"));
    assert!(!is_py_extension("pyc"));
}

#[test]
fn only_py_files_of_a_listing_become_scripts() {
    let listing = vec![
        "/s/zeta.py".to_string(),
        "/s/readme.md".to_string(),
        "/s/Alpha.PY".to_string(),
        "/s/.py".to_string(),
        "/s/noext".to_string(),
        "/s/x.pyc".to_string(),
    ];
    assert_eq!(py_scripts(&listing), vec!["/s/zeta.py".to_string(), "/s/Alpha.PY".to_string()]);
    let items = processor_items_for_listing(&listing);
    let values: Vec<&str> = items.iter().map(|i| i.value.as_str()).collect();
    assert_eq!(values, ["builtin", "/s/Alpha.PY", "/s/zeta.py", "none"]);
    assert_eq!(items[1].label, "Alpha.PY");
    assert!(py_scripts(&Vec::new()).is_empty());
}
