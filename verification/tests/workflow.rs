use workbench_gui::settings::{AppSettings, ServerConfig};
use workbench_gui::workflow::{
    dialog_reply, error_line, ingest_ready, process_ready, provisioning, run_started_line,
    stream_step, Operation, Provisioning, RunStep, StreamAction, StreamLine, Workflow,
    WorkflowStage,
};

fn idle(stage: WorkflowStage) -> Workflow {
    Workflow { op: Operation::Idle, stage }
}

#[test]
fn processing_needs_a_source_a_server_and_a_workbench_folder() {
    assert!(process_ready("https://sheet", true, true));
    assert!(!process_ready("   ", true, true));
    assert!(!process_ready("x", false, true));
    assert!(!process_ready("x", true, false));
    assert!(ingest_ready("/in", true, true));
    assert!(!ingest_ready("", true, true));
    assert!(!ingest_ready("/in", false, true));
}

#[test]
fn processing_starts_only_when_idle_and_marks_the_source_on_success() {
    let mut w = Workflow::new();
    assert!(w.begin_preprocess(true));
    assert_eq!(w.op, Operation::Preprocessing);
    assert!(!w.begin_preprocess(true), "a second request while busy is ignored");
    w.finish_preprocess(true);
    assert_eq!(w, idle(WorkflowStage::SourceProcessed));
    let mut w = Workflow::new();
    assert!(!w.begin_preprocess(false));
    assert_eq!(w, Workflow::new());
    assert!(w.begin_preprocess(true));
    w.finish_preprocess(false);
    assert_eq!(w, idle(WorkflowStage::Unfilled));
}

#[test]
fn a_run_needs_a_passed_check_and_a_check_unlocks_it() {
    let mut w = idle(WorkflowStage::Ready);
    let plan = w.request_run(false, true, Provisioning::NotNeeded);
    assert_eq!(plan.step, RunStep::Ignored);
    assert_eq!(w, idle(WorkflowStage::Ready));

    let plan = w.request_run(true, true, Provisioning::NotNeeded);
    assert_eq!(plan.step, RunStep::Start);
    assert_eq!(w.op, Operation::CheckRunning);
    w.finish_run(true);
    assert_eq!(w, idle(WorkflowStage::CheckPassed));

    let plan = w.request_run(false, true, Provisioning::NotNeeded);
    assert_eq!(plan.step, RunStep::Start);
    assert_eq!(w.op, Operation::IngestRunning);
    w.finish_run(false);
    assert_eq!(w, idle(WorkflowStage::Ready));
}

#[test]
fn editing_an_input_forgets_the_check_unless_something_runs() {
    let mut w = idle(WorkflowStage::CheckPassed);
    w.reset_validation();
    assert_eq!(w, idle(WorkflowStage::Unfilled));
    let mut busy = Workflow { op: Operation::CheckRunning, stage: WorkflowStage::CheckPassed };
    busy.reset_validation();
    assert_eq!(busy.stage, WorkflowStage::CheckPassed);
}

#[test]
fn first_run_provisioning_downloads_or_adopts_before_running() {
    assert_eq!(provisioning(true, true, true, false), Provisioning::Download);
    assert_eq!(provisioning(true, true, true, true), Provisioning::Adopt);
    assert_eq!(provisioning(false, true, true, false), Provisioning::NotNeeded);
    assert_eq!(provisioning(true, false, true, false), Provisioning::NotNeeded);
    assert_eq!(provisioning(true, true, false, false), Provisioning::NotNeeded);

    let mut w = idle(WorkflowStage::Ready);
    let plan = w.request_run(false, true, Provisioning::Download);
    assert_eq!(plan.step, RunStep::Download);
    assert_eq!(w.op, Operation::IngestRunning);
    w.finish_download();
    assert_eq!(w.op, Operation::Idle);

    let plan = w.request_run(false, true, Provisioning::Adopt);
    assert!(plan.adopt);
    assert_eq!(plan.step, RunStep::Ignored, "adopting does not skip the check");

    let mut busy = Workflow { op: Operation::Preprocessing, stage: WorkflowStage::CheckPassed };
    let plan = busy.request_run(true, true, Provisioning::NotNeeded);
    assert_eq!(plan.step, RunStep::Ignored);
    assert!(!plan.adopt);
    busy.abandon();
    assert_eq!(busy.op, Operation::Idle);
}

fn settings_with_servers() -> AppSettings {
    let mut s = AppSettings::default();
    s.upsert_server_config(None, ServerConfig {
        label: "Prod".to_string(),
        server_url: "https://prod".to_string(),
        credentials_file: "/prod.yml".to_string(),
        needs_confirmation: true,
        last_check: None,
    });
    s.upsert_server_config(None, ServerConfig {
        label: "Scratch".to_string(),
        server_url: "https://scratch".to_string(),
        credentials_file: "/scratch.yml".to_string(),
        needs_confirmation: false,
        last_check: None,
    });
    s
}

#[test]
fn a_server_marked_always_confirm_overrides_auto_accept() {
    let mut s = settings_with_servers();
    assert!(!s.auto_accept("https://scratch"), "off until switched on");
    s.set_bool("auto_accept_prompts", true);
    assert!(s.auto_accept("https://scratch"));
    assert!(!s.auto_accept("https://prod"));
    assert!(s.needs_confirmation("https://prod"));
    assert!(!s.needs_confirmation("https://elsewhere"));
}

#[test]
fn a_run_uses_the_credentials_of_the_first_server_at_its_url() {
    let s = settings_with_servers();
    assert_eq!(s.credentials_file_for("https://scratch"), "/scratch.yml");
    assert_eq!(s.credentials_file_for("https://none"), "");
}

#[test]
fn the_python_environment_needs_a_workbench_folder() {
    let mut s = AppSettings::default();
    let err = s.workbench_info().err().expect("no folder is an error");
    assert_eq!(err, "Workbench path not configured in settings");
    assert!(s.workbench_unset());
    s.set_text("workbench_path", " /wb ".to_string());
    s.set_text("python_path", "".to_string());
    s.set_bool("use_uv", true);
    let info = s.workbench_info().ok().expect("a folder is enough");
    assert_eq!(info.install_path, "/wb");
    assert_eq!(info.python_path, None);
    assert!(info.use_uv);
    assert_eq!(info.uv_path, None);
    assert!(!s.workbench_unset());
}

#[test]
fn adopting_a_download_turns_uv_on_only_when_never_set() {
    let mut s = AppSettings::default();
    s.adopt_provisioned_install("/wb".to_string(), Some("/uv".to_string()));
    assert_eq!(s.value_text("workbench_path"), "/wb");
    assert_eq!(s.value_text("uv_path"), "/uv");
    assert!(s.values.get("use_uv").map(|v| v.bool()).unwrap_or(false));

    let mut s = AppSettings::default();
    s.set_bool("use_uv", false);
    s.adopt_provisioned_install("/wb".to_string(), Some("/uv".to_string()));
    assert!(!s.values.get("use_uv").map(|v| v.bool()).unwrap_or(true), "an explicit choice stands");

    let mut s = AppSettings::default();
    s.adopt_provisioned_install("/wb".to_string(), None);
    assert!(!s.values.contains_key("uv_path"));
    assert!(!s.values.contains_key("use_uv"));
}

#[test]
fn a_prompt_is_answered_yes_unattended_or_put_to_the_user() {
    match stream_step(&StreamLine::InputRequired("Continue?".to_string()), true) {
        StreamAction::AutoAccept { prompt_line, reply, accept_line } => {
            assert_eq!(prompt_line, "[PROMPT] Continue?");
            assert_eq!(reply, "y");
            assert_eq!(accept_line, "[AUTO-ACCEPT] Sent: y");
        }
        _ => panic!("auto-accept answers the prompt"),
    }
    match stream_step(&StreamLine::InputRequired("Continue?".to_string()), false) {
        StreamAction::Ask { prompt_line, prompt } => {
            assert_eq!(prompt_line, "[PROMPT] Continue?");
            assert_eq!(prompt, "Continue?");
        }
        _ => panic!("the user is asked"),
    }
    assert_eq!(dialog_reply(true), "y");
    assert_eq!(dialog_reply(false), "n");
}

#[test]
fn output_is_logged_and_a_finish_or_failure_ends_the_reading() {
    for (line, done) in [
        (StreamLine::Output("row 1".to_string()), false),
        (StreamLine::Done("[DONE]".to_string()), true),
        (StreamLine::Error("[ERROR] boom".to_string()), true),
    ] {
        match stream_step(&line, true) {
            StreamAction::Append { line: _, finished } => assert_eq!(finished, done),
            _ => panic!("a line is appended"),
        }
    }
    assert_eq!(run_started_line(true), "--- CHECK started ---");
    assert_eq!(run_started_line(false), "--- RUN started ---");
    assert_eq!(error_line("x"), "[ERROR] x");
}
