//! The persisted form of the settings: one record, stored as a single JSON document, that the
//! in-memory [`AppSettings`] are written to and read back from.
use vstd::prelude::*;
use crate::settings::{
    AppSettings, AppSettingsView, CheckResult, CheckResultView, MainWindowBounds, ServerConfig,
    ServerConfigView, SettingValues, TaskConfig, TaskConfigView, Val, ValView, check_view,
    entries_map, opt_text, SETTINGS_SCHEMA_VERSION,
};

verus! {

/// A persisted setting value.
pub enum PersistVal {
    Text(String),
    Bool(bool),
}

impl View for PersistVal {
    type V = ValView;

    open spec fn view(&self) -> ValView {
        match self {
            PersistVal::Text(s) => ValView::Text(s@),
            PersistVal::Bool(b) => ValView::Bool(*b),
        }
    }
}

/// A persisted task config. A record written before descriptions existed reads with an
/// empty description.
pub struct PersistTaskConfig {
    pub label: String,
    pub task_name: String,
    pub description: String,
    pub file_path: String,
}

impl View for PersistTaskConfig {
    type V = TaskConfigView;

    open spec fn view(&self) -> TaskConfigView {
        TaskConfigView {
            label: self.label@,
            task_name: self.task_name@,
            file_path: self.file_path@,
            description: self.description@,
        }
    }
}

/// A persisted connection-test result.
pub struct PersistCheckResult {
    pub at: u64,
    pub reachable: bool,
    pub credentials_ok: Option<bool>,
    pub message: String,
}

impl View for PersistCheckResult {
    type V = CheckResultView;

    open spec fn view(&self) -> CheckResultView {
        CheckResultView {
            at: self.at,
            reachable: self.reachable,
            credentials_ok: self.credentials_ok,
            message: self.message@,
        }
    }
}

/// The view of an optional persisted check.
pub open spec fn persist_check_view(c: Option<PersistCheckResult>) -> Option<CheckResultView> {
    match c {
        Some(r) => Some(r@),
        None => None,
    }
}

/// A persisted server. A record written before the confirmation flag and the test result
/// existed reads as "never tested, no confirmation required".
pub struct PersistServerConfig {
    pub label: String,
    pub server_url: String,
    pub credentials_file: String,
    pub needs_confirmation: bool,
    pub last_check: Option<PersistCheckResult>,
}

impl View for PersistServerConfig {
    type V = ServerConfigView;

    open spec fn view(&self) -> ServerConfigView {
        ServerConfigView {
            label: self.label@,
            server_url: self.server_url@,
            credentials_file: self.credentials_file@,
            needs_confirmation: self.needs_confirmation,
            last_check: persist_check_view(self.last_check),
        }
    }
}

/// The schema version a record that names none was written with.
pub fn default_persist_settings_version() -> (r: u32)
    ensures
        r == 1,
{
    1
}

/// The persisted settings record.
pub struct PersistSettings {
    /// Schema version of this record.
    pub settings_version: u32,
    /// The values as (name, value) pairs; a name that occurs twice keeps its last value.
    pub values: Vec<(String, PersistVal)>,
    pub task_configs: Vec<PersistTaskConfig>,
    pub server_configs: Vec<PersistServerConfig>,
    pub main_window_bounds: Option<MainWindowBounds>,
    pub default_task_config: Option<String>,
    pub default_server: Option<String>,
}

/// The map that persisted (name, value) pairs describe: the last pair under a name wins.
pub open spec fn persisted_map(entries: Seq<(String, PersistVal)>) -> Map<Seq<char>, ValView>
    decreases entries.len(),
{
    if entries.len() == 0 {
        Map::empty()
    } else {
        persisted_map(entries.drop_last()).insert(entries.last().0@, entries.last().1@)
    }
}

/// What a [`PersistSettings`] record holds.
pub struct PersistSettingsView {
    pub settings_version: u32,
    pub values: Map<Seq<char>, ValView>,
    pub task_configs: Seq<TaskConfigView>,
    pub server_configs: Seq<ServerConfigView>,
    pub main_window_bounds: Option<MainWindowBounds>,
    pub default_task_config: Option<Seq<char>>,
    pub default_server: Option<Seq<char>>,
}

impl View for PersistSettings {
    type V = PersistSettingsView;

    open spec fn view(&self) -> PersistSettingsView {
        PersistSettingsView {
            settings_version: self.settings_version,
            values: persisted_map(self.values@),
            task_configs: self.task_configs@.map_values(|t: PersistTaskConfig| t@),
            server_configs: self.server_configs@.map_values(|s: PersistServerConfig| s@),
            main_window_bounds: self.main_window_bounds,
            default_task_config: opt_text(self.default_task_config),
            default_server: opt_text(self.default_server),
        }
    }
}

/// The record the settings `s` are saved as: everything they hold, at the current schema
/// version.
pub open spec fn persisted(s: AppSettingsView) -> PersistSettingsView {
    PersistSettingsView {
        settings_version: SETTINGS_SCHEMA_VERSION,
        values: s.values,
        task_configs: s.task_configs,
        server_configs: s.server_configs,
        main_window_bounds: s.main_window_bounds,
        default_task_config: s.default_task_config,
        default_server: s.default_server,
    }
}

/// The settings a record `p` loads as, remembering the schema version it was written with.
pub open spec fn restored(p: PersistSettingsView) -> AppSettingsView {
    AppSettingsView {
        values: p.values,
        task_configs: p.task_configs,
        server_configs: p.server_configs,
        main_window_bounds: p.main_window_bounds,
        default_task_config: p.default_task_config,
        default_server: p.default_server,
        settings_schema_version: p.settings_version,
    }
}

proof fn lemma_persisted_map_matches(pe: Seq<(String, PersistVal)>, e: Seq<(String, Val)>)
    requires
        pe.len() == e.len(),
        forall|i: int|
            0 <= i < e.len() ==> (#[trigger] pe[i]).0@ == e[i].0@ && pe[i].1@ == e[i].1@,
    ensures
        persisted_map(pe) == entries_map(e),
    decreases e.len(),
{
    if e.len() > 0 {
        lemma_persisted_map_matches(pe.drop_last(), e.drop_last());
        assert(pe.last() == pe[pe.len() - 1]);
    }
}

fn persist_val(v: &Val) -> (r: PersistVal)
    ensures
        r@ == v@,
{
    match v {
        Val::Text(t) => PersistVal::Text(t.clone()),
        Val::Bool(b) => PersistVal::Bool(*b),
    }
}

fn restore_val(v: &PersistVal) -> (r: Val)
    ensures
        r@ == v@,
{
    match v {
        PersistVal::Text(t) => Val::Text(t.clone()),
        PersistVal::Bool(b) => Val::Bool(*b),
    }
}

fn persist_check(c: &Option<CheckResult>) -> (r: Option<PersistCheckResult>)
    ensures
        persist_check_view(r) == check_view(*c),
{
    match c {
        Some(c) => Some(
            PersistCheckResult {
                at: c.at,
                reachable: c.reachable,
                credentials_ok: c.credentials_ok,
                message: c.message.clone(),
            },
        ),
        None => None,
    }
}

fn restore_check(c: &Option<PersistCheckResult>) -> (r: Option<CheckResult>)
    ensures
        check_view(r) == persist_check_view(*c),
{
    match c {
        Some(c) => Some(
            CheckResult {
                at: c.at,
                reachable: c.reachable,
                credentials_ok: c.credentials_ok,
                message: c.message.clone(),
            },
        ),
        None => None,
    }
}

fn copy_opt_text(t: &Option<String>) -> (r: Option<String>)
    ensures
        opt_text(r) == opt_text(*t),
{
    match t {
        Some(x) => Some(x.clone()),
        None => None,
    }
}

fn copy_opt_bounds(b: &Option<MainWindowBounds>) -> (r: Option<MainWindowBounds>)
    ensures
        r == *b,
{
    match b {
        Some(x) => Some(x.copy()),
        None => None,
    }
}

impl PersistSettings {
    /// The record that saves `s`.
    pub fn from_settings(s: &AppSettings) -> (r: PersistSettings)
        ensures
            r@ == persisted(s@),
    {
        let entries = s.values.entries();
        let mut values: Vec<(String, PersistVal)> = Vec::new();
        let mut i: usize = 0;
        while i < entries.len()
            invariant
                i <= entries@.len(),
                values@.len() == i,
                forall|j: int|
                    0 <= j < i ==> (#[trigger] values@[j]).0@ == entries@[j].0@ && values@[j].1@
                        == entries@[j].1@,
            decreases entries@.len() - i,
        {
            values.push((entries[i].0.clone(), persist_val(&entries[i].1)));
            i = i + 1;
        }
        proof {
            lemma_persisted_map_matches(values@, entries@);
        }
        let mut task_configs: Vec<PersistTaskConfig> = Vec::new();
        let mut i: usize = 0;
        while i < s.task_configs.len()
            invariant
                i <= s.task_configs@.len(),
                task_configs@.len() == i,
                forall|j: int|
                    0 <= j < i ==> (#[trigger] task_configs@[j])@ == s.task_configs@[j]@,
            decreases s.task_configs@.len() - i,
        {
            let t = &s.task_configs[i];
            task_configs.push(
                PersistTaskConfig {
                    label: t.label.clone(),
                    task_name: t.task_name.clone(),
                    description: t.description.clone(),
                    file_path: t.file_path.clone(),
                },
            );
            i = i + 1;
        }
        let mut server_configs: Vec<PersistServerConfig> = Vec::new();
        let mut i: usize = 0;
        while i < s.server_configs.len()
            invariant
                i <= s.server_configs@.len(),
                server_configs@.len() == i,
                forall|j: int|
                    0 <= j < i ==> (#[trigger] server_configs@[j])@ == s.server_configs@[j]@,
            decreases s.server_configs@.len() - i,
        {
            let c = &s.server_configs[i];
            server_configs.push(
                PersistServerConfig {
                    label: c.label.clone(),
                    server_url: c.server_url.clone(),
                    credentials_file: c.credentials_file.clone(),
                    needs_confirmation: c.needs_confirmation,
                    last_check: persist_check(&c.last_check),
                },
            );
            i = i + 1;
        }
        let r = PersistSettings {
            settings_version: SETTINGS_SCHEMA_VERSION,
            values,
            task_configs,
            server_configs,
            main_window_bounds: copy_opt_bounds(&s.main_window_bounds),
            default_task_config: copy_opt_text(&s.default_task_config),
            default_server: copy_opt_text(&s.default_server),
        };
        assert(r@.task_configs =~= s@.task_configs);
        assert(r@.server_configs =~= s@.server_configs);
        r
    }
}

impl AppSettings {
    /// The settings a persisted record loads as.
    pub fn from_persist(p: PersistSettings) -> (r: AppSettings)
        ensures
            r@ == restored(p@),
    {
        let mut values = SettingValues::new();
        let mut i: usize = 0;
        while i < p.values.len()
            invariant
                i <= p.values@.len(),
                values.view_map() == persisted_map(p.values@.take(i as int)),
            decreases p.values@.len() - i,
        {
            let ghost before = values.view_map();
            values.insert(p.values[i].0.clone(), restore_val(&p.values[i].1));
            proof {
                let t = p.values@.take(i as int + 1);
                assert(t.drop_last() =~= p.values@.take(i as int));
                assert(t.last() == p.values@[i as int]);
            }
            i = i + 1;
        }
        assert(p.values@.take(p.values@.len() as int) =~= p.values@);
        let mut task_configs: Vec<TaskConfig> = Vec::new();
        let mut i: usize = 0;
        while i < p.task_configs.len()
            invariant
                i <= p.task_configs@.len(),
                task_configs@.len() == i,
                forall|j: int|
                    0 <= j < i ==> (#[trigger] task_configs@[j])@ == p.task_configs@[j]@,
            decreases p.task_configs@.len() - i,
        {
            let t = &p.task_configs[i];
            task_configs.push(
                TaskConfig {
                    label: t.label.clone(),
                    task_name: t.task_name.clone(),
                    file_path: t.file_path.clone(),
                    description: t.description.clone(),
                },
            );
            i = i + 1;
        }
        let mut server_configs: Vec<ServerConfig> = Vec::new();
        let mut i: usize = 0;
        while i < p.server_configs.len()
            invariant
                i <= p.server_configs@.len(),
                server_configs@.len() == i,
                forall|j: int|
                    0 <= j < i ==> (#[trigger] server_configs@[j])@ == p.server_configs@[j]@,
            decreases p.server_configs@.len() - i,
        {
            let c = &p.server_configs[i];
            server_configs.push(
                ServerConfig {
                    label: c.label.clone(),
                    server_url: c.server_url.clone(),
                    credentials_file: c.credentials_file.clone(),
                    needs_confirmation: c.needs_confirmation,
                    last_check: restore_check(&c.last_check),
                },
            );
            i = i + 1;
        }
        let r = AppSettings {
            values,
            task_configs,
            server_configs,
            main_window_bounds: copy_opt_bounds(&p.main_window_bounds),
            default_task_config: copy_opt_text(&p.default_task_config),
            default_server: copy_opt_text(&p.default_server),
            settings_schema_version: p.settings_version,
        };
        assert(r@.task_configs =~= p@.task_configs);
        assert(r@.server_configs =~= p@.server_configs);
        r
    }
}

/// Saving settings and loading the record back gives the same settings, now marked with the
/// current schema version.
pub proof fn lemma_save_then_load(s: AppSettingsView)
    ensures
        restored(persisted(s)) == (AppSettingsView {
            settings_schema_version: SETTINGS_SCHEMA_VERSION,
            ..s
        }),
{
}

/// Loading a record and saving the settings again gives the same record, rewritten at the
/// current schema version.
pub proof fn lemma_load_then_save(p: PersistSettingsView)
    ensures
        persisted(restored(p)) == (PersistSettingsView {
            settings_version: SETTINGS_SCHEMA_VERSION,
            ..p
        }),
{
}

// ---------------------------------------------------------------------------------------------
// The background writer's debouncing.
// ---------------------------------------------------------------------------------------------

/// What the background writer's wait ended with.
pub enum WriterEvent<T> {
    /// A new snapshot arrived.
    Received(T),
    /// The quiet period passed with nothing new.
    Timeout,
    /// The app dropped its end: write what is pending and stop.
    Disconnected,
}

/// The background writer's state: the newest snapshot not yet written.
pub struct Debouncer<T> {
    pub pending: Option<T>,
}

/// One step of the writer: the pending snapshot after the event, the snapshot to write now (if
/// any) and whether the writer stops.
pub open spec fn spec_debounce<T>(pending: Option<T>, event: WriterEvent<T>) -> (Option<T>, Option<T>, bool) {
    match event {
        WriterEvent::Received(x) => (Some(x), None, false),
        WriterEvent::Timeout => (None, pending, false),
        WriterEvent::Disconnected => (None, pending, true),
    }
}

impl<T> Debouncer<T> {
    /// A writer with nothing pending.
    pub fn new() -> (r: Debouncer<T>)
        ensures
            r.pending is None,
    {
        Debouncer { pending: None }
    }

    /// Takes one event: a snapshot replaces the pending one, a quiet period writes what is
    /// pending, a disconnect writes what is pending and stops.
    pub fn step(&mut self, event: WriterEvent<T>) -> (r: (Option<T>, bool))
        ensures
            (final(self).pending, r.0, r.1) == spec_debounce(old(self).pending, event),
    {
        match event {
            WriterEvent::Received(x) => {
                self.pending = Some(x);
                (None, false)
            },
            WriterEvent::Timeout => {
                let mut out: Option<T> = None;
                std::mem::swap(&mut out, &mut self.pending);
                (out, false)
            },
            WriterEvent::Disconnected => {
                let mut out: Option<T> = None;
                std::mem::swap(&mut out, &mut self.pending);
                (out, true)
            },
        }
    }
}

/// The snapshots written over a run of events from `pending`, and what is left pending.
pub open spec fn debounce_run<T>(pending: Option<T>, events: Seq<WriterEvent<T>>) -> (Seq<T>, Option<T>)
    decreases events.len(),
{
    if events.len() == 0 {
        (Seq::empty(), pending)
    } else {
        let (written, left) = debounce_run(pending, events.drop_last());
        let (next, out, _) = spec_debounce(left, events.last());
        match out {
            Some(x) => (written.push(x), next),
            None => (written, next),
        }
    }
}

/// Shutting down loses nothing: after the last snapshot, any number of quiet periods and then
/// the disconnect, that snapshot has been written last and nothing is left pending.
pub proof fn lemma_last_snapshot_is_written<T>(
    pending: Option<T>,
    before: Seq<WriterEvent<T>>,
    x: T,
    quiet: nat,
)
    ensures
        ({
            let events = before.push(WriterEvent::Received(x)) + Seq::new(
                quiet,
                |i: int| WriterEvent::<T>::Timeout,
            ).push(WriterEvent::Disconnected);
            let (written, left) = debounce_run(pending, events);
            &&& written.len() > 0
            &&& written.last() == x
            &&& left is None
        }),
    decreases quiet,
{
    let head = before.push(WriterEvent::Received(x));
    let events = head + Seq::new(quiet, |i: int| WriterEvent::<T>::Timeout).push(
        WriterEvent::Disconnected,
    );
    assert(head.drop_last() =~= before);
    assert(head.last() == WriterEvent::Received(x));
    lemma_run_after_receive(pending, head);
    if quiet == 0 {
        assert(Seq::new(0, |i: int| WriterEvent::<T>::Timeout) =~= Seq::<WriterEvent<T>>::empty());
        assert(events =~= head.push(WriterEvent::Disconnected));
        assert(events.drop_last() =~= head);
        assert(events.last() == WriterEvent::<T>::Disconnected);
    } else {
        // The first quiet period writes `x`; every later step has nothing pending to write.
        lemma_quiet_then_disconnect(pending, head, quiet);
    }
}

/// After a snapshot arrives, `quiet` quiet periods and a disconnect write it exactly once more
/// and leave nothing pending.
proof fn lemma_quiet_then_disconnect<T>(pending: Option<T>, head: Seq<WriterEvent<T>>, quiet: nat)
    requires
        head.len() > 0,
        head.last() matches WriterEvent::Received(_),
        quiet > 0,
    ensures
        ({
            let x = head.last()->Received_0;
            let events = head + Seq::new(quiet, |i: int| WriterEvent::<T>::Timeout).push(
                WriterEvent::Disconnected,
            );
            let (written, left) = debounce_run(pending, events);
            &&& written.len() > 0
            &&& written.last() == x
            &&& left is None
        }),
    decreases quiet,
{
    let x = head.last()->Received_0;
    let timeouts = Seq::new(quiet, |i: int| WriterEvent::<T>::Timeout);
    let events = head + timeouts.push(WriterEvent::Disconnected);
    // Written after the first quiet period: x; nothing is pending from then on.
    let first = head.push(WriterEvent::<T>::Timeout);
    assert(first.drop_last() =~= head);
    lemma_run_after_receive(pending, head);
    lemma_idle_steps(pending, first, (quiet - 1) as nat);
    assert(events =~= first + Seq::new((quiet - 1) as nat, |i: int| WriterEvent::<T>::Timeout).push(
        WriterEvent::Disconnected,
    ));
}

/// Right after a snapshot arrives it is what is pending.
proof fn lemma_run_after_receive<T>(pending: Option<T>, head: Seq<WriterEvent<T>>)
    requires
        head.len() > 0,
        head.last() matches WriterEvent::Received(_),
    ensures
        debounce_run(pending, head).1 == Some(head.last()->Received_0),
{
}

/// From a run whose last step was a quiet period that wrote `x`, further quiet periods and a
/// disconnect write nothing more and leave nothing pending.
proof fn lemma_idle_steps<T>(pending: Option<T>, first: Seq<WriterEvent<T>>, k: nat)
    requires
        first.len() > 1,
        first.last() == WriterEvent::<T>::Timeout,
        first.drop_last().last() matches WriterEvent::Received(_),
    ensures
        ({
            let x = first.drop_last().last()->Received_0;
            let events = first + Seq::new(k, |i: int| WriterEvent::<T>::Timeout).push(
                WriterEvent::Disconnected,
            );
            let (written, left) = debounce_run(pending, events);
            &&& written.len() > 0
            &&& written.last() == x
            &&& left is None
        }),
    decreases k,
{
    let x = first.drop_last().last()->Received_0;
    lemma_run_after_receive(pending, first.drop_last());
    let base = debounce_run(pending, first);
    assert(base.0.len() > 0 && base.0.last() == x && base.1 is None);
    lemma_quiet_steps(pending, first, k);
    let mid = first + Seq::new(k, |i: int| WriterEvent::<T>::Timeout);
    let events = first + Seq::new(k, |i: int| WriterEvent::<T>::Timeout).push(
        WriterEvent::Disconnected,
    );
    assert(events.drop_last() =~= mid);
    assert(events.last() == WriterEvent::<T>::Disconnected);
}

/// Quiet periods with nothing pending change nothing.
proof fn lemma_quiet_steps<T>(pending: Option<T>, first: Seq<WriterEvent<T>>, k: nat)
    requires
        debounce_run(pending, first).1 is None,
    ensures
        debounce_run(pending, first + Seq::new(k, |i: int| WriterEvent::<T>::Timeout))
            == debounce_run(pending, first),
    decreases k,
{
    if k > 0 {
        lemma_quiet_steps(pending, first, (k - 1) as nat);
        let longer = first + Seq::new(k, |i: int| WriterEvent::<T>::Timeout);
        let shorter = first + Seq::new((k - 1) as nat, |i: int| WriterEvent::<T>::Timeout);
        assert(longer.drop_last() =~= shorter);
        assert(longer.last() == WriterEvent::<T>::Timeout);
    } else {
        assert(first + Seq::new(0, |i: int| WriterEvent::<T>::Timeout) =~= first);
    }
}

} // verus!
