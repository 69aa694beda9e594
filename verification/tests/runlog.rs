use workbench_gui::runlog::{
    appended_log, describe_config, edited_ago, preprocess_error_message, preprocess_error_text,
    preprocess_start_message, preprocess_success_messages, ItemsStats, PreprocessDetails,
    PreprocessResult, ProcessingStats,
};

#[test]
fn the_start_message_names_every_input_and_the_output() {
    let m = preprocess_start_message(
        "Workbench preprocessor",
        "/in/source.csv",
        "https://host/lang.json",
        "/wb/input_data/metadata.csv",
        None,
    );
    assert_eq!(
        m,
        "[INFO] Running Workbench preprocessor...\n[INFO] Source CSV: /in/source.csv\n[INFO] Language mapping URL: https://host/lang.json\n[INFO] Config: not supplied\n[INFO] Expected output: /wb/input_data/metadata.csv"
    );
    let with_config = preprocess_start_message("p", "s", "u", "m", Some("/c.yml"));
    assert!(with_config.contains("[INFO] Config: /c.yml\n"));
}

fn result(items: Option<(String, ItemsStats)>) -> PreprocessResult {
    let (items_output_path, items_stats) = match items {
        Some((p, s)) => (Some(p), Some(s)),
        None => (None, None),
    };
    PreprocessResult {
        metadata_csv: "/wb/input_data/metadata.csv".to_string(),
        details: PreprocessDetails {
            processing_stats: ProcessingStats { total_rows: 12, cells_modified: 4, validation_failures: 0 },
            items_output_path,
            items_stats,
        },
    }
}

#[test]
fn a_successful_run_logs_its_counts_and_the_items_csv_when_there_is_one() {
    let lines = preprocess_success_messages(&result(None));
    assert_eq!(
        lines,
        vec![
            "[INFO] Processor finished: rows=12, cells_modified=4, validation_failures=0".to_string(),
            "[INFO] New metadata CSV: /wb/input_data/metadata.csv".to_string(),
        ]
    );
    let lines = preprocess_success_messages(&result(Some((
        "/wb/input_data/items.csv".to_string(),
        ItemsStats { total_items: 30, unique_parents: 10, skipped_rows: 2 },
    ))));
    assert_eq!(lines.len(), 3);
    assert_eq!(lines[2], "[INFO] Items CSV: /wb/input_data/items.csv (items=30, unique_parents=10, skipped=2)");
}

#[test]
fn a_failure_is_logged_with_its_causes() {
    assert_eq!(preprocess_error_text("bad sheet"), "[ERROR] Processor failed: bad sheet");
    let err = anyhow::Error::msg("root cause").context("fetching the sheet");
    let chain: Vec<String> = err.chain().map(|e| e.to_string()).collect();
    assert_eq!(preprocess_error_message(&chain), "[ERROR] Processor failed: fetching the sheet: root cause");
    assert_eq!(format!("[ERROR] Processor failed: {err:#}"), preprocess_error_message(&chain));
    let boom = anyhow::Error::msg("boom").context("load failed");
    let chain: Vec<String> = boom.chain().map(|e| e.to_string()).collect();
    assert_eq!(preprocess_error_message(&chain), "[ERROR] Processor failed: load failed: boom");
    assert_eq!(preprocess_error_message(&vec!["only".to_string()]), "[ERROR] Processor failed: only");
}

#[test]
fn a_config_summary_joins_its_parts() {
    assert_eq!(describe_config(14, 2, Some(edited_ago(0))), "14 settings · runs 2 secondary configs · edited today");
    assert_eq!(describe_config(1, 1, None), "1 settings · runs 1 secondary config");
    assert_eq!(describe_config(0, 0, Some(edited_ago(86_400))), "0 settings · edited yesterday");
    assert_eq!(edited_ago(3 * 86_400 + 5), "edited 3 days ago");
    assert_eq!(edited_ago(86_399), "edited today");
}

#[test]
fn log_lines_are_appended_on_lines_of_their_own() {
    assert_eq!(appended_log("", "first"), "first");
    assert_eq!(appended_log("first", "second"), "first\nsecond");
}
