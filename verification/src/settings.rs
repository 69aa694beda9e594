//! The application's persisted preferences: free-form setting values, the library of task
//! configs, the saved servers and the remembered window size.
use vstd::prelude::*;
use crate::text::{concat, owned, decimal, u64_to_text, trim, trim_str};
use crate::yaml::text_equal;

verus! {

/// Increment when the persisted schema of the settings changes.
pub const SETTINGS_SCHEMA_VERSION: u32 = 2;

/// The value key under which the Settings window's last size is kept.
pub const SETTINGS_WINDOW_BOUNDS_KEY: &'static str = "settings_window_bounds";

// ---------------------------------------------------------------------------------------------
// Setting values.
// ---------------------------------------------------------------------------------------------

/// A setting value: text, or a switch.
pub enum Val {
    Text(String),
    Bool(bool),
}

/// What a [`Val`] stands for.
pub enum ValView {
    Text(Seq<char>),
    Bool(bool),
}

impl View for Val {
    type V = ValView;

    open spec fn view(&self) -> ValView {
        match self {
            Val::Text(s) => ValView::Text(s@),
            Val::Bool(b) => ValView::Bool(*b),
        }
    }
}

/// The text a value reads as: a switch reads as `true` or `false`.
pub open spec fn val_text(v: ValView) -> Seq<char> {
    match v {
        ValView::Text(s) => s,
        ValView::Bool(b) => if b {
            seq!['t', 'r', 'u', 'e']
        } else {
            seq!['f', 'a', 'l', 's', 'e']
        },
    }
}

/// The switch a value reads as: text reads as on exactly when it is `true`.
pub open spec fn val_bool(v: ValView) -> bool {
    match v {
        ValView::Bool(b) => b,
        ValView::Text(s) => s == seq!['t', 'r', 'u', 'e'],
    }
}

impl Val {
    /// The value as text.
    pub fn text(&self) -> (r: String)
        ensures
            r@ == val_text(self@),
    {
        match self {
            Val::Text(s) => s.clone(),
            Val::Bool(b) => {
                if *b {
                    proof {
                        reveal_strlit("true");
                    }
                    owned("true")
                } else {
                    proof {
                        reveal_strlit("false");
                    }
                    owned("false")
                }
            },
        }
    }

    /// The value as a switch.
    pub fn bool(&self) -> (r: bool)
        ensures
            r == val_bool(self@),
    {
        match self {
            Val::Bool(b) => {
                proof {
                    assert(self@ == ValView::Bool(*b));
                }
                *b
            },
            Val::Text(s) => {
                proof {
                    reveal_strlit("true");
                }
                let t = owned("true");
                assert(t@ =~= seq!['t', 'r', 'u', 'e']);
                text_equal(s, &t)
            },
        }
    }

    /// A copy of the value.
    pub fn copy(&self) -> (r: Val)
        ensures
            r@ == self@,
    {
        match self {
            Val::Text(s) => Val::Text(s.clone()),
            Val::Bool(b) => Val::Bool(*b),
        }
    }
}

/// A switch written as text reads back as the same switch.
pub proof fn lemma_bool_text_roundtrip(b: bool)
    ensures
        val_bool(ValView::Text(val_text(ValView::Bool(b)))) == b,
{
    if !b {
        assert(seq!['f', 'a', 'l', 's', 'e'] != seq!['t', 'r', 'u', 'e']) by {
            assert(seq!['f', 'a', 'l', 's', 'e'].len() != seq!['t', 'r', 'u', 'e'].len());
        }
    }
}

/// The setting values, keyed by name, each name once.
pub struct SettingValues {
    entries: Vec<(String, Val)>,
}

/// The names of `entries`, in order.
pub open spec fn entry_keys(entries: Seq<(String, Val)>) -> Seq<Seq<char>> {
    entries.map_values(|e: (String, Val)| e.0@)
}

/// The map `entries` describe: the last entry under a name wins (each name occurs once in a
/// well-formed store, so this is simply the entry under it).
pub open spec fn entries_map(entries: Seq<(String, Val)>) -> Map<Seq<char>, ValView>
    decreases entries.len(),
{
    if entries.len() == 0 {
        Map::empty()
    } else {
        entries_map(entries.drop_last()).insert(entries.last().0@, entries.last().1@)
    }
}

impl SettingValues {
    #[verifier::type_invariant]
    spec fn well_formed(self) -> bool {
        entry_keys(self.entries@).no_duplicates()
    }

    /// The values as a map from name to value.
    pub closed spec fn view_map(&self) -> Map<Seq<char>, ValView> {
        entries_map(self.entries@)
    }

    /// The entries, in the order the names were first set.
    pub closed spec fn spec_entries(&self) -> Seq<(String, Val)> {
        self.entries@
    }

    /// No values at all.
    pub fn new() -> (r: SettingValues)
        ensures
            r.view_map() == Map::<Seq<char>, ValView>::empty(),
            r.spec_entries().len() == 0,
    {
        SettingValues { entries: Vec::new() }
    }

    /// The entries, in the order the names were first set.
    pub fn entries(&self) -> (r: &Vec<(String, Val)>)
        ensures
            r@ == self.spec_entries(),
            entries_map(r@) == self.view_map(),
            entry_keys(r@).no_duplicates(),
    {
        proof {
            use_type_invariant(self);
        }
        &self.entries
    }

    proof fn lemma_map_keys(entries: Seq<(String, Val)>)
        ensures
            forall|k: Seq<char>| #[trigger]
                entries_map(entries).dom().contains(k) == entry_keys(entries).contains(k),
        decreases entries.len(),
    {
        if entries.len() > 0 {
            Self::lemma_map_keys(entries.drop_last());
            let ks = entry_keys(entries);
            let ps = entry_keys(entries.drop_last());
            assert(ps =~= ks.drop_last());
            let p = entries.drop_last();
            assert forall|k: Seq<char>| #[trigger]
                entries_map(entries).dom().contains(k) == ks.contains(k) by {
                assert(entries_map(p).dom().contains(k) == ps.contains(k));
                assert(entries_map(entries) == entries_map(p).insert(
                    entries.last().0@,
                    entries.last().1@,
                ));
                if ps.contains(k) {
                    let i = choose|i: int| 0 <= i < ps.len() && ps[i] == k;
                    assert(ks[i] == k);
                }
                if ks.contains(k) && k != entries.last().0@ {
                    let i = choose|i: int| 0 <= i < ks.len() && ks[i] == k;
                    assert(i < ks.len() - 1);
                    assert(ps[i] == k);
                }
                if k == entries.last().0@ {
                    assert(ks[ks.len() - 1] == k);
                }
            }
        }
    }

    proof fn lemma_map_at(entries: Seq<(String, Val)>, i: int)
        requires
            entry_keys(entries).no_duplicates(),
            0 <= i < entries.len(),
        ensures
            entries_map(entries)[entries[i].0@] == entries[i].1@,
            entries_map(entries).dom().contains(entries[i].0@),
        decreases entries.len(),
    {
        if i < entries.len() - 1 {
            let p = entries.drop_last();
            assert(entry_keys(p) =~= entry_keys(entries).drop_last());
            assert(p[i] == entries[i]);
            Self::lemma_map_at(p, i);
            assert(entry_keys(entries)[i] != entry_keys(entries)[entries.len() - 1]);
        }
    }

    proof fn lemma_update_map(entries: Seq<(String, Val)>, i: int, key: String, val: Val)
        requires
            entry_keys(entries).no_duplicates(),
            0 <= i < entries.len(),
            entries[i].0@ == key@,
        ensures
            entries_map(entries.update(i, (key, val))) == entries_map(entries).insert(key@, val@),
            entry_keys(entries.update(i, (key, val))) == entry_keys(entries),
    {
        let ne = entries.update(i, (key, val));
        assert(entry_keys(ne) =~= entry_keys(entries));
        Self::lemma_map_keys(ne);
        Self::lemma_map_keys(entries);
        let target = entries_map(entries).insert(key@, val@);
        assert forall|k: Seq<char>| entries_map(ne).dom().contains(k) == target.dom().contains(k) by {
            assert(entries_map(ne).dom().contains(k) == entry_keys(ne).contains(k));
            assert(entries_map(entries).dom().contains(k) == entry_keys(entries).contains(k));
            if k == key@ {
                assert(entry_keys(entries)[i] == k);
            }
        }
        assert forall|k: Seq<char>| #[trigger] entries_map(ne).dom().contains(k) implies entries_map(
            ne,
        )[k] == target[k] by {
            assert(entries_map(ne).dom().contains(k) == entry_keys(ne).contains(k));
            let j = choose|j: int| 0 <= j < ne.len() && entry_keys(ne)[j] == k;
            Self::lemma_map_at(ne, j);
            if j != i {
                assert(ne[j] == entries[j]);
                Self::lemma_map_at(entries, j);
                assert(entry_keys(entries)[j] != entry_keys(entries)[i]);
            }
        }
        assert(entries_map(ne) =~= target);
    }

    proof fn lemma_remove_map(entries: Seq<(String, Val)>, i: int)
        requires
            entry_keys(entries).no_duplicates(),
            0 <= i < entries.len(),
        ensures
            entries_map(entries.remove(i)) == entries_map(entries).remove(entries[i].0@),
            entry_keys(entries.remove(i)).no_duplicates(),
    {
        let ne = entries.remove(i);
        let ks = entry_keys(entries);
        let nks = entry_keys(ne);
        assert(nks =~= ks.remove(i));
        assert forall|a: int, b: int| 0 <= a < b < nks.len() implies nks[a] != nks[b] by {
            let a2 = if a < i { a } else { a + 1 };
            let b2 = if b < i { b } else { b + 1 };
            assert(nks[a] == ks[a2]);
            assert(nks[b] == ks[b2]);
        }
        Self::lemma_map_keys(ne);
        Self::lemma_map_keys(entries);
        let target = entries_map(entries).remove(entries[i].0@);
        assert forall|k: Seq<char>| entries_map(ne).dom().contains(k) == target.dom().contains(k) by {
            assert(entries_map(ne).dom().contains(k) == nks.contains(k));
            assert(entries_map(entries).dom().contains(k) == ks.contains(k));
            if nks.contains(k) {
                let j = choose|j: int| 0 <= j < nks.len() && nks[j] == k;
                let j2 = if j < i { j } else { j + 1 };
                assert(ks[j2] == k);
                assert(j2 != i);
                assert(ks[j2] != ks[i]);
            }
            if ks.contains(k) && k != entries[i].0@ {
                let j = choose|j: int| 0 <= j < ks.len() && ks[j] == k;
                assert(j != i);
                if j < i {
                    assert(nks[j] == k);
                } else {
                    assert(nks[j - 1] == k);
                }
            }
        }
        assert forall|k: Seq<char>| #[trigger] entries_map(ne).dom().contains(k) implies entries_map(
            ne,
        )[k] == target[k] by {
            assert(entries_map(ne).dom().contains(k) == nks.contains(k));
            let j = choose|j: int| 0 <= j < ne.len() && nks[j] == k;
            Self::lemma_map_at(ne, j);
            if j < i {
                assert(ne[j] == entries[j]);
                assert(ks[j] != ks[i]);
                Self::lemma_map_at(entries, j);
            } else {
                assert(ne[j] == entries[j + 1]);
                assert(ks[j + 1] != ks[i]);
                Self::lemma_map_at(entries, j + 1);
            }
        }
        assert(entries_map(ne) =~= target);
    }

    /// The value under `key`, if any.
    pub fn get(&self, key: &str) -> (r: Option<&Val>)
        ensures
            r is Some == self.view_map().dom().contains(key@),
            r matches Some(v) ==> v@ == self.view_map()[key@],
    {
        proof {
            use_type_invariant(self);
            Self::lemma_map_keys(self.entries@);
        }
        let k = owned(key);
        let mut i: usize = 0;
        while i < self.entries.len()
            invariant
                i <= self.entries@.len(),
                k@ == key@,
                entry_keys(self.entries@).no_duplicates(),
                forall|j: int| 0 <= j < i ==> (#[trigger] self.entries@[j]).0@ != key@,
            decreases self.entries@.len() - i,
        {
            if text_equal(&self.entries[i].0, &k) {
                proof {
                    Self::lemma_map_at(self.entries@, i as int);
                }
                return Some(&self.entries[i].1);
            }
            i = i + 1;
        }
        proof {
            let ks = entry_keys(self.entries@);
            if ks.contains(key@) {
                let j = choose|j: int| 0 <= j < ks.len() && ks[j] == key@;
                assert(self.entries@[j].0@ == key@);
            }
        }
        None
    }

    /// Whether a value is set under `key`.
    pub fn contains_key(&self, key: &str) -> (r: bool)
        ensures
            r == self.view_map().dom().contains(key@),
    {
        self.get(key).is_some()
    }

    /// Sets `key` to `val`: an existing entry keeps its place, a new one goes at the end.
    pub fn insert(&mut self, key: String, val: Val)
        ensures
            final(self).view_map() == old(self).view_map().insert(key@, val@),
    {
        proof {
            use_type_invariant(&*self);
            Self::lemma_map_keys(self.entries@);
        }
        let ghost old_entries = self.entries@;
        let mut i: usize = 0;
        while i < self.entries.len()
            invariant
                i <= self.entries@.len(),
                self.entries@ == old_entries,
                old(self).view_map() == entries_map(old_entries),
                entry_keys(old_entries).no_duplicates(),
                forall|j: int| 0 <= j < i ==> (#[trigger] old_entries[j]).0@ != key@,
            decreases self.entries@.len() - i,
        {
            if text_equal(&self.entries[i].0, &key) {
                let mut entries: Vec<(String, Val)> = Vec::new();
                std::mem::swap(&mut entries, &mut self.entries);
                let ghost gk = key;
                let ghost gv = val;
                proof {
                    Self::lemma_update_map(old_entries, i as int, key, val);
                }
                entries.set(i, (key, val));
                assert(entries@ == old_entries.update(i as int, (gk, gv)));
                assert(entries_map(entries@) == old(self).view_map().insert(gk@, gv@));
                self.entries = entries;
                return;
            }
            i = i + 1;
        }
        let mut entries: Vec<(String, Val)> = Vec::new();
                std::mem::swap(&mut entries, &mut self.entries);
        entries.push((key, val));
        proof {
            let ne = entries@;
            assert(ne.drop_last() =~= old_entries);
            assert(entry_keys(ne) =~= entry_keys(old_entries).push(key@));
            assert(!entry_keys(old_entries).contains(key@)) by {
                if entry_keys(old_entries).contains(key@) {
                    let j = choose|j: int|
                        0 <= j < old_entries.len() && entry_keys(old_entries)[j] == key@;
                    assert(old_entries[j].0@ == key@);
                }
            }
        }
        self.entries = entries;
    }

    /// Removes any value under `key`.
    pub fn remove(&mut self, key: &str)
        ensures
            final(self).view_map() == old(self).view_map().remove(key@),
    {
        proof {
            use_type_invariant(&*self);
            Self::lemma_map_keys(self.entries@);
        }
        let ghost old_entries = self.entries@;
        let k = owned(key);
        let mut i: usize = 0;
        while i < self.entries.len()
            invariant
                i <= self.entries@.len(),
                k@ == key@,
                self.entries@ == old_entries,
                old(self).view_map() == entries_map(old_entries),
                entry_keys(old_entries).no_duplicates(),
                forall|j: int| 0 <= j < i ==> (#[trigger] old_entries[j]).0@ != key@,
            decreases self.entries@.len() - i,
        {
            if text_equal(&self.entries[i].0, &k) {
                let mut entries: Vec<(String, Val)> = Vec::new();
                std::mem::swap(&mut entries, &mut self.entries);
                proof {
                    Self::lemma_remove_map(old_entries, i as int);
                }
                let _gone = entries.remove(i);
                assert(entries@ == old_entries.remove(i as int));
                assert(entries_map(entries@) == old(self).view_map().remove(key@));
                self.entries = entries;
                return;
            }
            i = i + 1;
        }
        proof {
            assert(!entry_keys(old_entries).contains(key@)) by {
                if entry_keys(old_entries).contains(key@) {
                    let j = choose|j: int|
                        0 <= j < old_entries.len() && entry_keys(old_entries)[j] == key@;
                    assert(old_entries[j].0@ == key@);
                }
            }
            assert(self.view_map() =~= old(self).view_map().remove(key@));
        }
    }
}

// ---------------------------------------------------------------------------------------------
// Saved task configs, servers and the checks run against them.
// ---------------------------------------------------------------------------------------------

/// A saved Workbench config in the library.
pub struct TaskConfig {
    pub label: String,
    pub task_name: String,
    pub file_path: String,
    /// What the config is for, in its author's words.
    pub description: String,
}

/// What a [`TaskConfig`] holds.
pub struct TaskConfigView {
    pub label: Seq<char>,
    pub task_name: Seq<char>,
    pub file_path: Seq<char>,
    pub description: Seq<char>,
}

impl View for TaskConfig {
    type V = TaskConfigView;

    open spec fn view(&self) -> TaskConfigView {
        TaskConfigView {
            label: self.label@,
            task_name: self.task_name@,
            file_path: self.file_path@,
            description: self.description@,
        }
    }
}

impl TaskConfig {
    /// A copy of the config.
    pub fn copy(&self) -> (r: TaskConfig)
        ensures
            r@ == self@,
    {
        TaskConfig {
            label: self.label.clone(),
            task_name: self.task_name.clone(),
            file_path: self.file_path.clone(),
            description: self.description.clone(),
        }
    }
}

/// What the last connection test of a server found.
pub struct CheckResult {
    /// Unix seconds.
    pub at: u64,
    pub reachable: bool,
    /// `None` when the host was unreachable, so the credentials were never sent.
    pub credentials_ok: Option<bool>,
    pub message: String,
}

/// What a [`CheckResult`] holds.
pub struct CheckResultView {
    pub at: u64,
    pub reachable: bool,
    pub credentials_ok: Option<bool>,
    pub message: Seq<char>,
}

impl View for CheckResult {
    type V = CheckResultView;

    open spec fn view(&self) -> CheckResultView {
        CheckResultView {
            at: self.at,
            reachable: self.reachable,
            credentials_ok: self.credentials_ok,
            message: self.message@,
        }
    }
}

/// The view of an optional check.
pub open spec fn check_view(c: Option<CheckResult>) -> Option<CheckResultView> {
    match c {
        Some(r) => Some(r@),
        None => None,
    }
}

/// The current time in Unix seconds, or 0 when the clock reads before the epoch
/// (`SystemTime::now` and `duration_since(UNIX_EPOCH)`, std). Nothing is promised of the value.
#[verifier::external_body]
pub(crate) fn unix_now() -> (r: u64) {
    std::time::SystemTime::now().duration_since(std::time::UNIX_EPOCH).map(|d| d.as_secs()).unwrap_or(0)
}

/// How long ago `at` was, seen from `now`: `just now` · `4 min ago` · `2 h ago` · `3 days ago`.
pub open spec fn spec_age_text(now: u64, at: u64) -> Seq<char> {
    let s: nat = if now >= at {
        (now - at) as nat
    } else {
        0
    };
    if s < 60 {
        seq!['j', 'u', 's', 't', ' ', 'n', 'o', 'w']
    } else if s < 3600 {
        decimal(s / 60) + seq![' ', 'm', 'i', 'n', ' ', 'a', 'g', 'o']
    } else if s < 86400 {
        decimal(s / 3600) + seq![' ', 'h', ' ', 'a', 'g', 'o']
    } else {
        decimal(s / 86400) + seq![' ', 'd', 'a', 'y', 's', ' ', 'a', 'g', 'o']
    }
}

impl CheckResult {
    /// A result stamped with the current time.
    pub fn now(reachable: bool, credentials_ok: Option<bool>, message: String) -> (r: CheckResult)
        ensures
            r.reachable == reachable,
            r.credentials_ok == credentials_ok,
            r.message@ == message@,
    {
        CheckResult { at: unix_now(), reachable, credentials_ok, message }
    }

    /// How long ago the check ran, as of `now`.
    pub fn age_at(&self, now: u64) -> (r: String)
        ensures
            r@ == spec_age_text(now, self.at),
    {
        let s: u64 = if now >= self.at {
            now - self.at
        } else {
            0
        };
        if s < 60 {
            proof {
                reveal_strlit("just now");
            }
            owned("just now")
        } else if s < 3600 {
            proof {
                reveal_strlit(" min ago");
            }
            concat(u64_to_text(s / 60).as_str(), " min ago")
        } else if s < 86400 {
            proof {
                reveal_strlit(" h ago");
            }
            concat(u64_to_text(s / 3600).as_str(), " h ago")
        } else {
            proof {
                reveal_strlit(" days ago");
            }
            concat(u64_to_text(s / 86400).as_str(), " days ago")
        }
    }

    /// How long ago the check ran, as of the current time.
    pub fn age(&self) -> (r: String)
        ensures
            exists|now: u64| r@ == spec_age_text(now, self.at),
    {
        let now = unix_now();
        self.age_at(now)
    }

    /// True only when both stages passed.
    pub fn is_ok(&self) -> (r: bool)
        ensures
            r == (self.reachable && self.credentials_ok == Some(true)),
    {
        self.reachable && match self.credentials_ok {
            Some(true) => true,
            _ => false,
        }
    }

    /// A copy of the result.
    pub fn copy(&self) -> (r: CheckResult)
        ensures
            r@ == self@,
    {
        CheckResult {
            at: self.at,
            reachable: self.reachable,
            credentials_ok: self.credentials_ok,
            message: self.message.clone(),
        }
    }
}

fn copy_check(c: &Option<CheckResult>) -> (r: Option<CheckResult>)
    ensures
        check_view(r) == check_view(*c),
{
    match c {
        Some(x) => Some(x.copy()),
        None => None,
    }
}

/// A saved ingest server.
pub struct ServerConfig {
    pub label: String,
    pub server_url: String,
    pub credentials_file: String,
    /// Destructive tasks on this server always prompt, whatever auto-accept says.
    pub needs_confirmation: bool,
    pub last_check: Option<CheckResult>,
}

/// What a [`ServerConfig`] holds.
pub struct ServerConfigView {
    pub label: Seq<char>,
    pub server_url: Seq<char>,
    pub credentials_file: Seq<char>,
    pub needs_confirmation: bool,
    pub last_check: Option<CheckResultView>,
}

impl View for ServerConfig {
    type V = ServerConfigView;

    open spec fn view(&self) -> ServerConfigView {
        ServerConfigView {
            label: self.label@,
            server_url: self.server_url@,
            credentials_file: self.credentials_file@,
            needs_confirmation: self.needs_confirmation,
            last_check: check_view(self.last_check),
        }
    }
}

impl ServerConfig {
    /// A copy of the server.
    pub fn copy(&self) -> (r: ServerConfig)
        ensures
            r@ == self@,
    {
        ServerConfig {
            label: self.label.clone(),
            server_url: self.server_url.clone(),
            credentials_file: self.credentials_file.clone(),
            needs_confirmation: self.needs_confirmation,
            last_check: copy_check(&self.last_check),
        }
    }
}

/// The last main-window size and display, for restore on launch. The width and height are
/// kept as the bit patterns of the `f32` pixel values; only the window layer reads them.
pub struct MainWindowBounds {
    pub width_bits: u32,
    pub height_bits: u32,
    pub display_id: Option<u32>,
}

impl MainWindowBounds {
    /// A copy of the bounds.
    pub fn copy(&self) -> (r: MainWindowBounds)
        ensures
            r == *self,
    {
        MainWindowBounds {
            width_bits: self.width_bits,
            height_bits: self.height_bits,
            display_id: self.display_id,
        }
    }
}

/// The view of an optional text.
pub open spec fn opt_text(t: Option<String>) -> Option<Seq<char>> {
    match t {
        Some(x) => Some(x@),
        None => None,
    }
}

// ---------------------------------------------------------------------------------------------
// The settings as a whole.
// ---------------------------------------------------------------------------------------------

/// All of the application's preferences.
pub struct AppSettings {
    pub values: SettingValues,
    pub task_configs: Vec<TaskConfig>,
    pub server_configs: Vec<ServerConfig>,
    pub main_window_bounds: Option<MainWindowBounds>,
    pub default_task_config: Option<String>,
    pub default_server: Option<String>,
    /// Schema version last read from disk.
    pub settings_schema_version: u32,
}

/// What [`AppSettings`] hold.
pub struct AppSettingsView {
    pub values: Map<Seq<char>, ValView>,
    pub task_configs: Seq<TaskConfigView>,
    pub server_configs: Seq<ServerConfigView>,
    pub main_window_bounds: Option<MainWindowBounds>,
    pub default_task_config: Option<Seq<char>>,
    pub default_server: Option<Seq<char>>,
    pub settings_schema_version: u32,
}

impl View for AppSettings {
    type V = AppSettingsView;

    open spec fn view(&self) -> AppSettingsView {
        AppSettingsView {
            values: self.values.view_map(),
            task_configs: self.task_configs@.map_values(|t: TaskConfig| t@),
            server_configs: self.server_configs@.map_values(|s: ServerConfig| s@),
            main_window_bounds: self.main_window_bounds,
            default_task_config: opt_text(self.default_task_config),
            default_server: opt_text(self.default_server),
            settings_schema_version: self.settings_schema_version,
        }
    }
}

impl Default for AppSettings {
    /// No values, no configs, no servers, at the current schema version.
    fn default() -> (r: AppSettings)
        ensures
            r@.values == Map::<Seq<char>, ValView>::empty(),
            r@.task_configs.len() == 0,
            r@.server_configs.len() == 0,
            r@.main_window_bounds is None,
            r@.default_task_config is None,
            r@.default_server is None,
            r@.settings_schema_version == SETTINGS_SCHEMA_VERSION,
    {
        AppSettings {
            values: SettingValues::new(),
            task_configs: Vec::new(),
            server_configs: Vec::new(),
            main_window_bounds: None,
            default_task_config: None,
            default_server: None,
            settings_schema_version: SETTINGS_SCHEMA_VERSION,
        }
    }
}

/// Whether a config has the three fields a library entry needs.
pub open spec fn task_config_complete(c: TaskConfigView) -> bool {
    c.label.len() > 0 && c.task_name.len() > 0 && c.file_path.len() > 0
}

/// The server a saved entry becomes after an edit at `index`: the last test result carries over
/// when the edit names the same URL and credentials file and brings no result of its own.
pub open spec fn edited_server(old: ServerConfigView, new: ServerConfigView) -> ServerConfigView {
    if old.server_url == new.server_url && old.credentials_file == new.credentials_file
        && new.last_check is None {
        ServerConfigView { last_check: old.last_check, ..new }
    } else {
        new
    }
}

impl AppSettings {
    /// Sets a text value.
    pub fn set_text(&mut self, key: &str, val: String)
        ensures
            final(self)@ == (AppSettingsView {
                values: old(self)@.values.insert(key@, ValView::Text(val@)),
                ..old(self)@
            }),
    {
        self.values.insert(owned(key), Val::Text(val));
    }

    /// Sets a switch value.
    pub fn set_bool(&mut self, key: &str, val: bool)
        ensures
            final(self)@ == (AppSettingsView {
                values: old(self)@.values.insert(key@, ValView::Bool(val)),
                ..old(self)@
            }),
    {
        self.values.insert(owned(key), Val::Bool(val));
    }

    /// Append a config, or replace the one at `index`. A config missing its label, task or file
    /// is ignored.
    pub fn upsert_task_config(&mut self, index: Option<usize>, config: TaskConfig)
        ensures
            !task_config_complete(config@) ==> final(self)@ == old(self)@,
            task_config_complete(config@) ==> final(self)@ == (AppSettingsView {
                task_configs: match index {
                    Some(i) => if i < old(self)@.task_configs.len() {
                        old(self)@.task_configs.update(i as int, config@)
                    } else {
                        old(self)@.task_configs.push(config@)
                    },
                    None => old(self)@.task_configs.push(config@),
                },
                ..old(self)@
            }),
    {
        if config.label.unicode_len() == 0 || config.task_name.unicode_len() == 0
            || config.file_path.unicode_len() == 0 {
            return;
        }
        let ghost c = config@;
        let ghost before = self.task_configs@;
        match index {
            Some(i) => {
                if i < self.task_configs.len() {
                    self.task_configs.set(i, config);
                    assert(self.task_configs@.map_values(|t: TaskConfig| t@) =~= before.map_values(
                        |t: TaskConfig| t@,
                    ).update(i as int, c));
                } else {
                    self.task_configs.push(config);
                    assert(self.task_configs@.map_values(|t: TaskConfig| t@) =~= before.map_values(
                        |t: TaskConfig| t@,
                    ).push(c));
                }
            },
            None => {
                self.task_configs.push(config);
                assert(self.task_configs@.map_values(|t: TaskConfig| t@) =~= before.map_values(
                    |t: TaskConfig| t@,
                ).push(c));
            },
        }
    }

    /// Removes the config at `index`, if there is one.
    pub fn remove_task_config(&mut self, index: usize)
        ensures
            final(self)@ == (AppSettingsView {
                task_configs: if index < old(self)@.task_configs.len() {
                    old(self)@.task_configs.remove(index as int)
                } else {
                    old(self)@.task_configs
                },
                ..old(self)@
            }),
    {
        let ghost before = self.task_configs@;
        if index < self.task_configs.len() {
            let _gone = self.task_configs.remove(index);
            assert(self.task_configs@.map_values(|t: TaskConfig| t@) =~= before.map_values(
                |t: TaskConfig| t@,
            ).remove(index as int));
        }
    }

    /// Append a server, or replace the one at `index`. A server missing its label or URL is
    /// ignored. Editing a server keeps its last test result when the URL and credentials file
    /// are unchanged and the edit brings no result of its own.
    pub fn upsert_server_config(&mut self, index: Option<usize>, config: ServerConfig)
        ensures
            !(config@.label.len() > 0 && config@.server_url.len() > 0) ==> final(self)@ == old(
                self,
            )@,
            (config@.label.len() > 0 && config@.server_url.len() > 0) ==> final(self)@ == (
            AppSettingsView {
                server_configs: match index {
                    Some(i) => if i < old(self)@.server_configs.len() {
                        old(self)@.server_configs.update(
                            i as int,
                            edited_server(old(self)@.server_configs[i as int], config@),
                        )
                    } else {
                        old(self)@.server_configs.push(config@)
                    },
                    None => old(self)@.server_configs.push(config@),
                },
                ..old(self)@
            }),
    {
        if config.label.unicode_len() == 0 || config.server_url.unicode_len() == 0 {
            return;
        }
        let mut config = config;
        let ghost before = self.server_configs@;
        let ghost c0 = config@;
        match index {
            Some(i) => {
                if i < self.server_configs.len() {
                    let same_target = text_equal(&self.server_configs[i].server_url, &config.server_url)
                        && text_equal(
                        &self.server_configs[i].credentials_file,
                        &config.credentials_file,
                    );
                    if same_target && config.last_check.is_none() {
                        config.last_check = copy_check(&self.server_configs[i].last_check);
                    }
                    let ghost c1 = config@;
                    assert(c1 == edited_server(before[i as int]@, c0));
                    self.server_configs.set(i, config);
                    assert(self.server_configs@.map_values(|s: ServerConfig| s@) =~= before.map_values(
                        |s: ServerConfig| s@,
                    ).update(i as int, c1));
                } else {
                    self.server_configs.push(config);
                    assert(self.server_configs@.map_values(|s: ServerConfig| s@) =~= before.map_values(
                        |s: ServerConfig| s@,
                    ).push(c0));
                }
            },
            None => {
                self.server_configs.push(config);
                assert(self.server_configs@.map_values(|s: ServerConfig| s@) =~= before.map_values(
                    |s: ServerConfig| s@,
                ).push(c0));
            },
        }
    }

    /// Removes the server at `index`, if there is one.
    pub fn remove_server_config(&mut self, index: usize)
        ensures
            final(self)@ == (AppSettingsView {
                server_configs: if index < old(self)@.server_configs.len() {
                    old(self)@.server_configs.remove(index as int)
                } else {
                    old(self)@.server_configs
                },
                ..old(self)@
            }),
    {
        let ghost before = self.server_configs@;
        if index < self.server_configs.len() {
            let _gone = self.server_configs.remove(index);
            assert(self.server_configs@.map_values(|s: ServerConfig| s@) =~= before.map_values(
                |s: ServerConfig| s@,
            ).remove(index as int));
        }
    }

    /// Record what a check found on the server at `index`, without disturbing anything the
    /// user has typed.
    pub fn set_server_check(&mut self, index: usize, result: CheckResult)
        ensures
            final(self)@ == (AppSettingsView {
                server_configs: if index < old(self)@.server_configs.len() {
                    old(self)@.server_configs.update(
                        index as int,
                        ServerConfigView {
                            last_check: Some(result@),
                            ..old(self)@.server_configs[index as int]
                        },
                    )
                } else {
                    old(self)@.server_configs
                },
                ..old(self)@
            }),
    {
        let ghost before = self.server_configs@;
        if index < self.server_configs.len() {
            let mut server = self.server_configs[index].copy();
            let ghost r = result@;
            server.last_check = Some(result);
            let ghost sv = server@;
            self.server_configs.set(index, server);
            assert(self.server_configs@.map_values(|s: ServerConfig| s@) =~= before.map_values(
                |s: ServerConfig| s@,
            ).update(index as int, sv));
        }
    }

    /// Sets (or clears) the task config the main window starts on.
    pub fn set_default_task_config(&mut self, label: Option<String>)
        ensures
            final(self)@ == (AppSettingsView { default_task_config: opt_text(label), ..old(self)@ }),
    {
        self.default_task_config = label;
    }

    /// Sets (or clears) the server the main window starts on.
    pub fn set_default_server(&mut self, label: Option<String>)
        ensures
            final(self)@ == (AppSettingsView { default_server: opt_text(label), ..old(self)@ }),
    {
        self.default_server = label;
    }
}

/// The text a value under `key` reads as, or nothing when no value is set.
pub open spec fn value_text(values: Map<Seq<char>, ValView>, key: Seq<char>) -> Seq<char> {
    if values.dom().contains(key) {
        val_text(values[key])
    } else {
        Seq::empty()
    }
}

/// The task config the add form's three fields describe.
pub open spec fn pending_task_config(values: Map<Seq<char>, ValView>) -> TaskConfigView {
    TaskConfigView {
        label: value_text(values, "new_task_label"@),
        task_name: value_text(values, "new_task_name"@),
        file_path: value_text(values, "new_task_path"@),
        description: Seq::empty(),
    }
}

/// The server the add form's three fields describe: never tested, no confirmation required.
pub open spec fn pending_server_config(values: Map<Seq<char>, ValView>) -> ServerConfigView {
    ServerConfigView {
        label: value_text(values, "new_server_label"@),
        server_url: value_text(values, "new_server_url"@),
        credentials_file: value_text(values, "new_credentials_file"@),
        needs_confirmation: false,
        last_check: None,
    }
}

/// Whether the add form names a server: label, URL and credentials file all filled in.
pub open spec fn server_form_complete(c: ServerConfigView) -> bool {
    c.label.len() > 0 && c.server_url.len() > 0 && c.credentials_file.len() > 0
}

impl AppSettings {
    /// The text of the value under `key`, or the empty text.
    pub fn value_text(&self, key: &str) -> (r: String)
        ensures
            r@ == value_text(self@.values, key@),
    {
        match self.values.get(key) {
            Some(v) => v.text(),
            None => String::new(),
        }
    }

    /// Files the add form (`new_task_label`, `new_task_name`, `new_task_path`) as a new task
    /// config and clears the form. Nothing happens while a field is empty.
    pub fn add_task_config(&mut self)
        ensures
            !task_config_complete(pending_task_config(old(self)@.values)) ==> final(self)@ == old(
                self,
            )@,
            task_config_complete(pending_task_config(old(self)@.values)) ==> final(self)@ == (
            AppSettingsView {
                values: old(self)@.values.remove("new_task_label"@).remove(
                    "new_task_name"@,
                ).remove("new_task_path"@),
                task_configs: old(self)@.task_configs.push(pending_task_config(old(self)@.values)),
                ..old(self)@
            }),
    {
        let label = self.value_text("new_task_label");
        let task_name = self.value_text("new_task_name");
        let file_path = self.value_text("new_task_path");
        if label.unicode_len() == 0 || task_name.unicode_len() == 0 || file_path.unicode_len()
            == 0 {
            return;
        }
        let config = TaskConfig { label, task_name, file_path, description: String::new() };
        let ghost c = config@;
        let ghost before = self.task_configs@;
        self.task_configs.push(config);
        assert(self.task_configs@.map_values(|t: TaskConfig| t@) =~= before.map_values(
            |t: TaskConfig| t@,
        ).push(c));
        self.values.remove("new_task_label");
        self.values.remove("new_task_name");
        self.values.remove("new_task_path");
    }

    /// Files the add form (`new_server_label`, `new_server_url`, `new_credentials_file`) as a
    /// new server and clears the form. Nothing happens while a field is empty.
    pub fn add_server_config(&mut self)
        ensures
            !server_form_complete(pending_server_config(old(self)@.values)) ==> final(self)@ == old(
                self,
            )@,
            server_form_complete(pending_server_config(old(self)@.values)) ==> final(self)@ == (
            AppSettingsView {
                values: old(self)@.values.remove("new_server_label"@).remove(
                    "new_server_url"@,
                ).remove("new_credentials_file"@),
                server_configs: old(self)@.server_configs.push(
                    pending_server_config(old(self)@.values),
                ),
                ..old(self)@
            }),
    {
        let label = self.value_text("new_server_label");
        let server_url = self.value_text("new_server_url");
        let credentials_file = self.value_text("new_credentials_file");
        if label.unicode_len() == 0 || server_url.unicode_len() == 0
            || credentials_file.unicode_len() == 0 {
            return;
        }
        let config = ServerConfig {
            label,
            server_url,
            credentials_file,
            needs_confirmation: false,
            last_check: None,
        };
        let ghost c = config@;
        let ghost before = self.server_configs@;
        self.server_configs.push(config);
        assert(self.server_configs@.map_values(|s: ServerConfig| s@) =~= before.map_values(
            |s: ServerConfig| s@,
        ).push(c));
        self.values.remove("new_server_label");
        self.values.remove("new_server_url");
        self.values.remove("new_credentials_file");
    }
}

/// A path-like setting: the value's text trimmed, or nothing when it is unset or blank.
pub open spec fn path_setting(values: Map<Seq<char>, ValView>, key: Seq<char>) -> Option<Seq<char>> {
    if trim(value_text(values, key)).len() == 0 {
        None
    } else {
        Some(trim(value_text(values, key)))
    }
}

impl AppSettings {
    /// The trimmed text of the value under `key`, or `None` when it is unset or blank.
    pub fn path_setting(&self, key: &str) -> (r: Option<String>)
        ensures
            opt_text(r) == path_setting(self@.values, key@),
    {
        let raw = self.value_text(key);
        let t = trim_str(raw.as_str());
        if t.unicode_len() == 0 {
            None
        } else {
            Some(t)
        }
    }
}

/// The setting key of the dark-theme switch.
pub const DARK_THEME_KEY: &'static str = "dark_theme";

impl AppSettings {
    /// The text saved under `key`, when there is some: what a restored field starts with.
    pub fn restored_text(&self, key: &str) -> (r: Option<String>)
        ensures
            opt_text(r) == (if value_text(self@.values, key@).len() > 0 {
                Some(value_text(self@.values, key@))
            } else {
                None
            }),
    {
        let t = self.value_text(key);
        if t.unicode_len() == 0 {
            None
        } else {
            Some(t)
        }
    }

    /// The choice saved under `key`, or `default` when none is saved.
    pub fn saved_choice(&self, key: &str, default: &str) -> (r: String)
        ensures
            r@ == (if value_text(self@.values, key@).len() > 0 {
                value_text(self@.values, key@)
            } else {
                default@
            }),
    {
        match self.restored_text(key) {
            Some(t) => t,
            None => owned(default),
        }
    }

    /// The switch under `key`, or `default` when it is unset.
    pub fn switch_or(&self, key: &str, default: bool) -> (r: bool)
        ensures
            r == (if self@.values.dom().contains(key@) {
                val_bool(self@.values[key@])
            } else {
                default
            }),
    {
        match self.values.get(key) {
            Some(v) => v.bool(),
            None => default,
        }
    }

    /// Whether the dark theme is on: on unless switched off.
    pub fn dark_theme(&self) -> (r: bool)
        ensures
            r == (if self@.values.dom().contains(DARK_THEME_KEY@) {
                val_bool(self@.values[DARK_THEME_KEY@])
            } else {
                true
            }),
    {
        self.switch_or(DARK_THEME_KEY, true)
    }

    /// At startup a theme that was never chosen is recorded as dark; the theme to apply is
    /// returned.
    pub fn init_theme(&mut self) -> (dark: bool)
        ensures
            !old(self)@.values.dom().contains(DARK_THEME_KEY@) ==> final(self)@ == (
            AppSettingsView {
                values: old(self)@.values.insert(DARK_THEME_KEY@, ValView::Bool(true)),
                ..old(self)@
            }) && dark,
            old(self)@.values.dom().contains(DARK_THEME_KEY@) ==> final(self)@ == old(self)@
                && dark == val_bool(old(self)@.values[DARK_THEME_KEY@]),
    {
        if !self.values.contains_key(DARK_THEME_KEY) {
            self.set_bool(DARK_THEME_KEY, true);
        }
        self.dark_theme()
    }

    /// Whether the builder opens with the YAML panel shown: yes unless switched off.
    pub fn show_yaml_panel(&self) -> (r: bool)
        ensures
            r == (if self@.values.dom().contains("builder_show_yaml"@) {
                val_bool(self@.values["builder_show_yaml"@])
            } else {
                true
            }),
    {
        self.switch_or("builder_show_yaml", true)
    }
}

} // verus!
