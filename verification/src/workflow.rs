//! The main window's run workflow: which of processing, checking and ingesting may start, what
//! each start and finish does to the window's state, and how the output of a running Workbench
//! is answered. The window performs each step and reports back; every decision is made here.
use vstd::prelude::*;
use crate::settings::{AppSettings, AppSettingsView, ServerConfigView, ValView, path_setting,
    val_bool, opt_text};
use crate::text::{is_blank, is_blank_str, owned, push_str};
use crate::yaml::text_equal;

verus! {

/// What long-running operation is under way.
#[derive(Clone, Copy, PartialEq, Eq, Structural, Debug)]
pub enum Operation {
    Idle,
    Preprocessing,
    CheckRunning,
    IngestRunning,
}

/// How far through the workflow the user has come, which decides the actions unlocked.
#[derive(Clone, Copy, PartialEq, Eq, Structural, Debug)]
pub enum WorkflowStage {
    Unfilled,
    Ready,
    SourceProcessed,
    CheckPassed,
}

/// The window's workflow state.
#[derive(Clone, Copy, PartialEq, Eq, Structural, Debug)]
pub struct Workflow {
    pub op: Operation,
    pub stage: WorkflowStage,
}

/// What first-run provisioning of Workbench asks for before a check or run.
#[derive(Clone, Copy, PartialEq, Eq, Structural, Debug)]
pub enum Provisioning {
    /// Workbench is configured, or the installer did not ask for a download.
    NotNeeded,
    /// An earlier session downloaded Workbench: record its folder and carry on.
    Adopt,
    /// Download Workbench first, then start over.
    Download,
}

/// What a request to check or run comes to.
#[derive(Clone, Copy, PartialEq, Eq, Structural, Debug)]
pub enum RunStep {
    /// Nothing starts.
    Ignored,
    /// The download starts; the run is asked for again when it lands.
    Download,
    /// The check or run starts.
    Start,
}

/// The answer to a request to check or run: whether to record an earlier download first, and
/// what starts.
#[derive(Clone, Copy, PartialEq, Eq, Structural, Debug)]
pub struct RunPlan {
    pub adopt: bool,
    pub step: RunStep,
}

/// What provisioning asks for: only when Workbench's folder is not set, the installer asked for
/// a download and a per-user folder exists to put it in; then by whether it is already there.
pub open spec fn spec_provisioning(
    workbench_unset: bool,
    provision_requested: bool,
    destination_known: bool,
    already_downloaded: bool,
) -> Provisioning {
    if workbench_unset && provision_requested && destination_known {
        if already_downloaded {
            Provisioning::Adopt
        } else {
            Provisioning::Download
        }
    } else {
        Provisioning::NotNeeded
    }
}

/// What first-run provisioning asks for.
pub fn provisioning(
    workbench_unset: bool,
    provision_requested: bool,
    destination_known: bool,
    already_downloaded: bool,
) -> (r: Provisioning)
    ensures
        r == spec_provisioning(
            workbench_unset,
            provision_requested,
            destination_known,
            already_downloaded,
        ),
{
    if workbench_unset && provision_requested && destination_known {
        if already_downloaded {
            Provisioning::Adopt
        } else {
            Provisioning::Download
        }
    } else {
        Provisioning::NotNeeded
    }
}

/// The operation a check (`check`) or a run occupies the window with.
pub open spec fn run_operation(check: bool) -> Operation {
    if check {
        Operation::CheckRunning
    } else {
        Operation::IngestRunning
    }
}

/// The plan for a request to check or run, and the workflow after it.
pub open spec fn spec_request_run(w: Workflow, check: bool, ready: bool, p: Provisioning) -> (
    RunPlan,
    Workflow,
) {
    if w.op != Operation::Idle || !ready {
        (RunPlan { adopt: false, step: RunStep::Ignored }, w)
    } else if p == Provisioning::Download {
        (RunPlan { adopt: false, step: RunStep::Download }, Workflow { op: run_operation(check), ..w })
    } else {
        let adopt = p == Provisioning::Adopt;
        if !check && w.stage != WorkflowStage::CheckPassed {
            (RunPlan { adopt, step: RunStep::Ignored }, w)
        } else {
            (RunPlan { adopt, step: RunStep::Start }, Workflow { op: run_operation(check), ..w })
        }
    }
}

/// Whether the fields processing needs are filled: the current source's field, a server (for
/// the language mapping) and Workbench's folder (the output goes under it).
pub open spec fn spec_process_ready(
    source_value: Seq<char>,
    server_selected: bool,
    workbench_dir_set: bool,
) -> bool {
    !is_blank(source_value) && server_selected && workbench_dir_set
}

/// Whether the fields processing needs are filled.
pub fn process_ready(source_value: &str, server_selected: bool, workbench_dir_set: bool) -> (r:
    bool)
    ensures
        r == spec_process_ready(source_value@, server_selected, workbench_dir_set),
{
    !is_blank_str(source_value) && server_selected && workbench_dir_set
}

/// Whether a check or run may be asked for: a folder for the ingest files, a task config and a
/// server.
pub fn ingest_ready(ingest_files_dir: &str, task_selected: bool, server_selected: bool) -> (r:
    bool)
    ensures
        r == (!is_blank(ingest_files_dir@) && task_selected && server_selected),
{
    !is_blank_str(ingest_files_dir) && task_selected && server_selected
}

impl Workflow {
    /// Nothing running, nothing validated.
    pub fn new() -> (r: Workflow)
        ensures
            r == (Workflow { op: Operation::Idle, stage: WorkflowStage::Unfilled }),
    {
        Workflow { op: Operation::Idle, stage: WorkflowStage::Unfilled }
    }

    /// Whether no operation is under way.
    pub fn is_idle(&self) -> (r: bool)
        ensures
            r == (self.op == Operation::Idle),
    {
        self.op == Operation::Idle
    }

    /// An input changed: what was validated no longer holds. Ignored while an operation runs,
    /// whose result is about to arrive.
    pub fn reset_validation(&mut self)
        ensures
            old(self).op == Operation::Idle ==> *final(self) == (Workflow {
                stage: WorkflowStage::Unfilled,
                ..*old(self)
            }),
            old(self).op != Operation::Idle ==> *final(self) == *old(self),
    {
        if self.op != Operation::Idle {
            return;
        }
        self.stage = WorkflowStage::Unfilled;
    }

    /// A request to process the source: it starts when the window is idle and the fields are
    /// filled.
    pub fn begin_preprocess(&mut self, ready: bool) -> (started: bool)
        ensures
            started == (old(self).op == Operation::Idle && ready),
            started ==> *final(self) == (Workflow { op: Operation::Preprocessing, ..*old(self) }),
            !started ==> *final(self) == *old(self),
    {
        if self.op != Operation::Idle || !ready {
            return false;
        }
        self.op = Operation::Preprocessing;
        true
    }

    /// Processing ended; only a success marks the source processed.
    pub fn finish_preprocess(&mut self, succeeded: bool)
        ensures
            final(self).op == Operation::Idle,
            final(self).stage == (if succeeded {
                WorkflowStage::SourceProcessed
            } else {
                old(self).stage
            }),
    {
        if succeeded {
            self.stage = WorkflowStage::SourceProcessed;
        }
        self.op = Operation::Idle;
    }

    /// The operation stopped before it got going (a missing setting, a file that would not
    /// load): the window is idle again and nothing was validated.
    pub fn abandon(&mut self)
        ensures
            *final(self) == (Workflow { op: Operation::Idle, ..*old(self) }),
    {
        self.op = Operation::Idle;
    }

    /// A request to check (`check`) or run. Nothing starts while the window is busy or the
    /// fields are not filled. A needed download starts instead of the run. A run, unlike a
    /// check, also needs a passed check.
    pub fn request_run(&mut self, check: bool, ready: bool, provisioning: Provisioning) -> (r:
        RunPlan)
        ensures
            (r, *final(self)) == spec_request_run(*old(self), check, ready, provisioning),
    {
        if self.op != Operation::Idle || !ready {
            return RunPlan { adopt: false, step: RunStep::Ignored };
        }
        if provisioning == Provisioning::Download {
            self.op = if check {
                Operation::CheckRunning
            } else {
                Operation::IngestRunning
            };
            return RunPlan { adopt: false, step: RunStep::Download };
        }
        let adopt = provisioning == Provisioning::Adopt;
        if !check && self.stage != WorkflowStage::CheckPassed {
            return RunPlan { adopt, step: RunStep::Ignored };
        }
        self.op = if check {
            Operation::CheckRunning
        } else {
            Operation::IngestRunning
        };
        RunPlan { adopt, step: RunStep::Start }
    }

    /// The download that stood in for a run ended; the window is idle again (and asks for the
    /// run afresh when the download succeeded).
    pub fn finish_download(&mut self)
        ensures
            *final(self) == (Workflow { op: Operation::Idle, ..*old(self) }),
    {
        self.op = Operation::Idle;
    }

    /// Workbench's output ended. A check unlocks the run; a run sends the user back to the
    /// start of the check-then-run cycle.
    pub fn finish_run(&mut self, check: bool)
        ensures
            *final(self) == (Workflow {
                op: Operation::Idle,
                stage: if check {
                    WorkflowStage::CheckPassed
                } else {
                    WorkflowStage::Ready
                },
            }),
    {
        self.op = Operation::Idle;
        self.stage = if check {
            WorkflowStage::CheckPassed
        } else {
            WorkflowStage::Ready
        };
    }
}

/// A run is never started without a check passed since the last run or edit.
pub proof fn lemma_run_needs_passed_check(w: Workflow, ready: bool, p: Provisioning)
    requires
        w.stage != WorkflowStage::CheckPassed,
    ensures
        spec_request_run(w, false, ready, p).0.step != RunStep::Start,
{
}

/// A request made while an operation runs changes nothing and starts nothing.
pub proof fn lemma_busy_window_ignores_requests(w: Workflow, check: bool, ready: bool, p: Provisioning)
    requires
        w.op != Operation::Idle,
    ensures
        spec_request_run(w, check, ready, p) == (RunPlan { adopt: false, step: RunStep::Ignored }, w),
{
}

// ---------------------------------------------------------------------------------------------
// What the settings decide about a run.
// ---------------------------------------------------------------------------------------------

/// The Python environment a run or a script uses.
pub struct WbInfo {
    pub install_path: String,
    pub python_path: Option<String>,
    pub use_uv: bool,
    pub uv_path: Option<String>,
}

/// The switch under `key`, or `default` when it is unset.
pub open spec fn switch_or(values: Map<Seq<char>, ValView>, key: Seq<char>, default: bool) -> bool {
    if values.dom().contains(key) {
        val_bool(values[key])
    } else {
        default
    }
}

/// The index of the first server whose URL is `url`.
pub open spec fn first_server_with_url(servers: Seq<ServerConfigView>, url: Seq<char>) -> Option<
    int,
> {
    if exists|i: int| 0 <= i < servers.len() && servers[i].server_url == url {
        Some(
            choose|i: int|
                0 <= i < servers.len() && servers[i].server_url == url && forall|j: int|
                    0 <= j < i ==> servers[j].server_url != url,
        )
    } else {
        None
    }
}

proof fn lemma_first_server(servers: Seq<ServerConfigView>, url: Seq<char>, k: int)
    requires
        0 <= k < servers.len(),
        servers[k].server_url == url,
        forall|j: int| 0 <= j < k ==> servers[j].server_url != url,
    ensures
        first_server_with_url(servers, url) == Some(k),
{
    let i = choose|i: int|
        0 <= i < servers.len() && servers[i].server_url == url && forall|j: int|
            0 <= j < i ==> servers[j].server_url != url;
    assert(0 <= i < servers.len() && servers[i].server_url == url && forall|j: int|
        0 <= j < i ==> servers[j].server_url != url);
    if i < k {
        assert(servers[i].server_url != url);
    }
    if k < i {
        assert(servers[k].server_url != url);
    }
}

/// Whether some server at `url` is marked "always confirm".
pub open spec fn url_needs_confirmation(servers: Seq<ServerConfigView>, url: Seq<char>) -> bool {
    exists|i: int|
        0 <= i < servers.len() && servers[i].server_url == url && servers[i].needs_confirmation
}

impl AppSettings {
    /// The Python environment from the settings; an error when Workbench's folder is not set.
    pub fn workbench_info(&self) -> (r: Result<WbInfo, String>)
        ensures
            r is Err <==> path_setting(self@.values, "workbench_path"@) is None,
            r matches Err(e) ==> e@ == "Workbench path not configured in settings"@,
            r matches Ok(info) ==> {
                &&& Some(info.install_path@) == path_setting(self@.values, "workbench_path"@)
                &&& opt_text(info.python_path) == path_setting(self@.values, "python_path"@)
                &&& info.use_uv == switch_or(self@.values, "use_uv"@, false)
                &&& opt_text(info.uv_path) == path_setting(self@.values, "uv_path"@)
            },
    {
        let wb = match self.path_setting("workbench_path") {
            Some(p) => p,
            None => {
                return Err(owned("Workbench path not configured in settings"));
            },
        };
        let use_uv = match self.values.get("use_uv") {
            Some(v) => v.bool(),
            None => false,
        };
        Ok(
            WbInfo {
                install_path: wb,
                python_path: self.path_setting("python_path"),
                use_uv,
                uv_path: self.path_setting("uv_path"),
            },
        )
    }

    /// Whether Workbench's folder is unset (or blank), which is when provisioning may apply.
    pub fn workbench_unset(&self) -> (r: bool)
        ensures
            r == (path_setting(self@.values, "workbench_path"@) is None),
    {
        self.path_setting("workbench_path").is_none()
    }

    /// Records a Workbench downloaded by the app as the configured folder, and a `uv` that the
    /// installer bundled as the `uv` to use. `use_uv` is turned on only when it was never set,
    /// so an explicit choice stands.
    pub fn adopt_provisioned_install(&mut self, dir: String, bundled_uv: Option<String>)
        ensures
            final(self)@ == (AppSettingsView {
                values: match bundled_uv {
                    None => old(self)@.values.insert("workbench_path"@, ValView::Text(dir@)),
                    Some(uv) => {
                        let v = old(self)@.values.insert(
                            "workbench_path"@,
                            ValView::Text(dir@),
                        ).insert("uv_path"@, ValView::Text(uv@));
                        if old(self)@.values.dom().contains("use_uv"@) {
                            v
                        } else {
                            v.insert("use_uv"@, ValView::Bool(true))
                        }
                    },
                },
                ..old(self)@
            }),
    {
        let ghost before = self@.values;
        proof {
            reveal_strlit("use_uv");
            reveal_strlit("uv_path");
            reveal_strlit("workbench_path");
            assert("use_uv"@.len() != "uv_path"@.len());
            assert("use_uv"@.len() != "workbench_path"@.len());
        }
        self.set_text("workbench_path", dir);
        match bundled_uv {
            Some(uv) => {
                self.set_text("uv_path", uv);
                if !self.values.contains_key("use_uv") {
                    proof {
                        assert(!before.dom().contains("use_uv"@));
                    }
                    self.set_bool("use_uv", true);
                } else {
                    proof {
                        assert(before.dom().contains("use_uv"@));
                    }
                }
            },
            None => {},
        }
    }

    /// The credentials file of the first server at `server_url`, or the empty path.
    pub fn credentials_file_for(&self, server_url: &str) -> (r: String)
        ensures
            r@ == (match first_server_with_url(self@.server_configs, server_url@) {
                Some(i) => self@.server_configs[i].credentials_file,
                None => Seq::empty(),
            }),
    {
        let url = owned(server_url);
        let mut i: usize = 0;
        while i < self.server_configs.len()
            invariant
                i <= self.server_configs@.len(),
                url@ == server_url@,
                forall|j: int|
                    0 <= j < i ==> (#[trigger] self@.server_configs[j]).server_url != server_url@,
            decreases self.server_configs@.len() - i,
        {
            if text_equal(&self.server_configs[i].server_url, &url) {
                proof {
                    lemma_first_server(self@.server_configs, server_url@, i as int);
                }
                return self.server_configs[i].credentials_file.clone();
            }
            i = i + 1;
        }
        String::new()
    }

    /// Whether a server at `server_url` is marked "always confirm".
    pub fn needs_confirmation(&self, server_url: &str) -> (r: bool)
        ensures
            r == url_needs_confirmation(self@.server_configs, server_url@),
    {
        let url = owned(server_url);
        let mut i: usize = 0;
        while i < self.server_configs.len()
            invariant
                i <= self.server_configs@.len(),
                url@ == server_url@,
                forall|j: int|
                    0 <= j < i ==> !((#[trigger] self@.server_configs[j]).server_url
                        == server_url@ && self@.server_configs[j].needs_confirmation),
            decreases self.server_configs@.len() - i,
        {
            if text_equal(&self.server_configs[i].server_url, &url)
                && self.server_configs[i].needs_confirmation {
                assert(self@.server_configs[i as int].server_url == server_url@);
                return true;
            }
            i = i + 1;
        }
        false
    }

    /// Whether Workbench's yes/no prompts are answered "y" unattended: only when the
    /// auto-accept switch is on and the server is not marked "always confirm", whose answer
    /// wins whenever the two disagree.
    pub fn auto_accept(&self, server_url: &str) -> (r: bool)
        ensures
            r == (!url_needs_confirmation(self@.server_configs, server_url@) && switch_or(
                self@.values,
                "auto_accept_prompts"@,
                false,
            )),
    {
        let confirms = self.needs_confirmation(server_url);
        !confirms && match self.values.get("auto_accept_prompts") {
            Some(v) => v.bool(),
            None => false,
        }
    }
}

/// A server marked "always confirm" is never answered unattended, whatever the switch says.
pub proof fn lemma_confirming_server_never_auto_accepts(s: AppSettingsView, url: Seq<char>)
    requires
        url_needs_confirmation(s.server_configs, url),
    ensures
        !(!url_needs_confirmation(s.server_configs, url) && switch_or(
            s.values,
            "auto_accept_prompts"@,
            false,
        )),
{
}

// ---------------------------------------------------------------------------------------------
// Answering a running Workbench.
// ---------------------------------------------------------------------------------------------

/// One event from a running Workbench.
pub enum StreamLine {
    /// Workbench asks a yes/no question.
    InputRequired(String),
    /// A line of output, as the log shows it.
    Output(String),
    /// The process finished; the text is the log's closing line.
    Done(String),
    /// The process failed; the text is the log's closing line.
    Error(String),
}

/// What the window does with one event.
pub enum StreamAction {
    /// Log the question, answer it with `reply` and log that it was answered.
    AutoAccept { prompt_line: String, reply: String, accept_line: String },
    /// Log the question and ask the user it in a dialog, reading on while it is open.
    Ask { prompt_line: String, prompt: String },
    /// Log the line; stop reading when `finished`.
    Append { line: String, finished: bool },
}

/// The answer sent for the dialog's Yes (`yes`) or No.
pub fn dialog_reply(yes: bool) -> (r: String)
    ensures
        r@ == (if yes {
            "y"@
        } else {
            "n"@
        }),
{
    if yes {
        owned("y")
    } else {
        owned("n")
    }
}

/// What to do with one event: a question is logged and either answered "y" at once (when
/// auto-accept applies) or put to the user; any other line is logged, and a finish or a failure
/// ends the reading.
pub fn stream_step(line: &StreamLine, auto_accept: bool) -> (r: StreamAction)
    ensures
        match (*line, r) {
            (StreamLine::InputRequired(p), StreamAction::AutoAccept { prompt_line, reply, accept_line }) =>
                auto_accept && prompt_line@ == "[PROMPT] "@ + p@ && reply@ == "y"@
                    && accept_line@ == "[AUTO-ACCEPT] Sent: y"@,
            (StreamLine::InputRequired(p), StreamAction::Ask { prompt_line, prompt }) =>
                !auto_accept && prompt_line@ == "[PROMPT] "@ + p@ && prompt@ == p@,
            (StreamLine::Output(t), StreamAction::Append { line, finished }) => line@ == t@ && !finished,
            (StreamLine::Done(t), StreamAction::Append { line, finished }) => line@ == t@ && finished,
            (StreamLine::Error(t), StreamAction::Append { line, finished }) => line@ == t@ && finished,
            _ => false,
        },
{
    match line {
        StreamLine::InputRequired(p) => {
            let mut prompt_line = owned("[PROMPT] ");
            push_str(&mut prompt_line, p.as_str());
            if auto_accept {
                StreamAction::AutoAccept {
                    prompt_line,
                    reply: owned("y"),
                    accept_line: owned("[AUTO-ACCEPT] Sent: y"),
                }
            } else {
                StreamAction::Ask { prompt_line, prompt: p.clone() }
            }
        },
        StreamLine::Output(t) => StreamAction::Append { line: t.clone(), finished: false },
        StreamLine::Done(t) => StreamAction::Append { line: t.clone(), finished: true },
        StreamLine::Error(t) => StreamAction::Append { line: t.clone(), finished: true },
    }
}

/// The line that opens a check (`check`) or a run in the log.
pub fn run_started_line(check: bool) -> (r: String)
    ensures
        r@ == (if check {
            "--- CHECK started ---"@
        } else {
            "--- RUN started ---"@
        }),
{
    if check {
        owned("--- CHECK started ---")
    } else {
        owned("--- RUN started ---")
    }
}

/// An error line for the log.
pub fn error_line(detail: &str) -> (r: String)
    ensures
        r@ == "[ERROR] "@ + detail@,
{
    let mut r = owned("[ERROR] ");
    push_str(&mut r, detail);
    r
}

// ---------------------------------------------------------------------------------------------
// Keeping the dropdowns in step with the settings.
// ---------------------------------------------------------------------------------------------

/// What a dropdown does when the saved entries may have changed.
pub enum SelectSync {
    /// The entries are as last shown.
    Unchanged,
    /// Show the new entries; on their first showing, select the saved default.
    Replace { select: Option<String> },
}

/// The views of a list of labels.
pub open spec fn label_views(v: Seq<String>) -> Seq<Seq<char>> {
    v.map_values(|s: String| s@)
}

/// What a dropdown does when its entries are now `labels` and were last shown as `shown`.
pub fn select_sync(labels: &Vec<String>, shown: &Vec<String>, default: Option<&String>) -> (r:
    SelectSync)
    ensures
        label_views(labels@) == label_views(shown@) ==> r is Unchanged,
        label_views(labels@) != label_views(shown@) ==> (r matches SelectSync::Replace { select }
            && opt_text(select) == (if shown@.len() == 0 {
            match default {
                Some(d) => Some(d@),
                None => None,
            }
        } else {
            None
        })),
{
    let mut same = labels.len() == shown.len();
    proof {
        if !same {
            assert(label_views(labels@).len() != label_views(shown@).len());
        }
    }
    let mut i: usize = 0;
    while same && i < labels.len()
        invariant
            i <= labels@.len(),
            same ==> labels@.len() == shown@.len(),
            same ==> forall|j: int| 0 <= j < i ==> labels@[j]@ == shown@[j]@,
            !same ==> label_views(labels@) != label_views(shown@),
        decreases labels@.len() - i,
    {
        if !text_equal(&labels[i], &shown[i]) {
            same = false;
            assert(label_views(labels@)[i as int] != label_views(shown@)[i as int]);
        }
        i = i + 1;
    }
    if same {
        assert(label_views(labels@) =~= label_views(shown@));
        return SelectSync::Unchanged;
    }
    let select = if shown.len() == 0 {
        match default {
            Some(d) => Some(d.clone()),
            None => None,
        }
    } else {
        None
    };
    SelectSync::Replace { select }
}

} // verus!
