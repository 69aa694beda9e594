//! The config builder's bookkeeping around the draft: widget ids, where a new config is saved
//! and what the library records for it, the validation problems shown beside each row and in the
//! YAML preview, and which search result is selected.
use vstd::prelude::*;
use crate::draft::{ConfigDraft, DraftValues, entry_get, entry_index};
use crate::runlog::joined;
use crate::platform::{adjoined, file_stem_of, join_path, last_segment, plain_component, simple_dir, simple_path};
use crate::settings::{AppSettings, AppSettingsView, TaskConfig, TaskConfigView, opt_text, value_text};
use crate::text::{chars_of, is_blank, is_blank_str, is_prefix, owned, push_str,
    spec_lowercase, string_from_chars, to_lowercase, trim, trim_str};
use crate::yaml::{YamlValue, YamlView, text_equal, untag};

verus! {

// ---------------------------------------------------------------------------------------------
// Widget ids.
// ---------------------------------------------------------------------------------------------

/// The id of a setting's field, one list item or one cell of a row: the parts joined by `#`
/// (`rollback_dir`, `shutdown#0`, `csv_value_templates#0#k`, `media_types#1#l#2`).
pub fn field_id(parts: &Vec<String>) -> (r: String)
    ensures
        r@ == joined(parts@.map_values(|p: String| p@), seq!['#']),
{
    let ghost ps = parts@.map_values(|p: String| p@);
    let mut r = String::new();
    let mut i: usize = 0;
    while i < parts.len()
        invariant
            i <= parts@.len(),
            ps == parts@.map_values(|p: String| p@),
            r@ == joined(ps.subrange(0, i as int), seq!['#']),
        decreases parts@.len() - i,
    {
        let ghost next = ps.subrange(0, i + 1);
        assert(next.drop_last() =~= ps.subrange(0, i as int));
        if i > 0 {
            let mut sep: Vec<char> = Vec::new();
            sep.push('#');
            let s = string_from_chars(sep.as_slice());
            push_str(&mut r, s.as_str());
        } else {
            assert(next.len() == 1);
        }
        push_str(&mut r, parts[i].as_str());
        proof {
            if i == 0 {
                assert(r@ =~= next[0]);
            }
        }
        i = i + 1;
    }
    assert(ps.subrange(0, parts@.len() as int) =~= ps);
    r
}

/// Whether the widget `id` belongs to the setting `key`: its own field, or one under `key#`.
pub open spec fn spec_widget_belongs_to(id: Seq<char>, key: Seq<char>) -> bool {
    id == key || is_prefix(key.push('#'), id)
}

/// Whether the widget `id` belongs to the setting `key` (and is forgotten with its rows).
pub fn widget_belongs_to(id: &str, key: &str) -> (r: bool)
    ensures
        r == spec_widget_belongs_to(id@, key@),
{
    let ic = chars_of(id);
    let mut kc = chars_of(key);
    let same = text_equal(&owned(id), &owned(key));
    kc.push('#');
    same || crate::text::starts_with_chars(&ic, &kc)
}

// ---------------------------------------------------------------------------------------------
// Naming and placing a config.
// ---------------------------------------------------------------------------------------------

/// Where a setting the app supplies at run time comes from, as the locked band says it.
pub fn locked_source(key: &str) -> (r: String)
    ensures
        r@ == (if key@ == "host"@ {
            "Ingest server"@
        } else if key@ == "credentials_file_path"@ {
            "App settings"@
        } else if key@ == "input_csv"@ {
            "Processed sheet"@
        } else {
            "The app"@
        }),
{
    let k = owned(key);
    if text_equal(&k, &owned("host")) {
        owned("Ingest server")
    } else if text_equal(&k, &owned("credentials_file_path")) {
        owned("App settings")
    } else if text_equal(&k, &owned("input_csv")) {
        owned("Processed sheet")
    } else {
        owned("The app")
    }
}

/// A path's file name without its extension (`Path::file_stem`, std). For a simple path the
/// file name is the text after the last `/`, and its stem is, as `file_stem` documents, the
/// whole name when it has no `.` but a leading one, else the part before the last `.`. For
/// other paths the result depends on the platform and is not stated.
#[verifier::external_body]
fn path_stem(path: &str) -> (r: Option<String>)
    ensures
        simple_path(path@) ==> opt_text(r) == Some(file_stem_of(last_segment(path@))),
{
    std::path::Path::new(path).file_stem().map(|s| s.to_string_lossy().into_owned())
}

/// The name the builder shows for a draft, given whether it has a file and that file's stem:
/// what the user typed, else the stem, else "New config". Never empty.
pub open spec fn spec_display_label(label: Seq<char>, has_path: bool, stem: Option<Seq<char>>) -> Seq<
    char,
> {
    if !is_blank(label) {
        label
    } else if has_path && stem is Some && stem->0.len() > 0 {
        stem->0
    } else {
        "New config"@
    }
}

/// The name the builder shows for a draft, once the stem of its file is known.
pub fn display_label_from(label: &str, has_path: bool, stem: Option<String>) -> (r: String)
    ensures
        r@ == spec_display_label(label@, has_path, opt_text(stem)),
        r@.len() > 0,
{
    proof {
        reveal_strlit("New config");
    }
    if !is_blank_str(label) {
        return owned(label);
    }
    if has_path {
        if let Some(s) = stem {
            if s.unicode_len() > 0 {
                return s;
            }
        }
    }
    owned("New config")
}

/// The name the builder shows for a draft: what the user typed, else the file's stem, else
/// "New config". Never empty.
pub fn display_label(draft: &ConfigDraft) -> (r: String)
    ensures
        !is_blank(draft.label@) ==> r@ == draft.label@,
        is_blank(draft.label@) && draft.path is None ==> r@ == "New config"@,
        draft.path is Some && simple_path(draft.path->0@) ==> r@ == spec_display_label(
            draft.label@,
            true,
            Some(file_stem_of(last_segment(draft.path->0@))),
        ),
        r@.len() > 0,
{
    let stem = match &draft.path {
        Some(p) => path_stem(p.as_str()),
        None => None,
    };
    display_label_from(draft.label.as_str(), draft.path.is_some(), stem)
}

/// The text with each space made an underscore.
pub open spec fn underscored(s: Seq<char>) -> Seq<char> {
    s.map_values(|c: char| if c == ' ' {
        '_'
    } else {
        c
    })
}

/// The file name a new config is saved under: `new_config.yml` without a label, else the
/// label trimmed, spaces made underscores, lowercased, with `.yml`.
pub open spec fn spec_config_file_name(label: Seq<char>) -> Seq<char> {
    if is_blank(label) {
        "new_config.yml"@
    } else {
        spec_lowercase(underscored(trim(label))) + ".yml"@
    }
}

/// The file name a new config is saved under.
pub fn config_file_name(label: &str) -> (r: String)
    ensures
        r@ == spec_config_file_name(label@),
{
    if is_blank_str(label) {
        return owned("new_config.yml");
    }
    let t = trim_str(label);
    let tc = chars_of(t.as_str());
    let mut u: Vec<char> = Vec::new();
    let mut i: usize = 0;
    while i < tc.len()
        invariant
            i <= tc@.len(),
            u@ == underscored(tc@.subrange(0, i as int)),
        decreases tc@.len() - i,
    {
        let c = if tc[i] == ' ' {
            '_'
        } else {
            tc[i]
        };
        u.push(c);
        proof {
            assert(underscored(tc@.subrange(0, i + 1)) =~= underscored(tc@.subrange(0, i as int)).push(c));
        }
        i = i + 1;
    }
    assert(tc@.subrange(0, tc@.len() as int) =~= tc@);
    let us = string_from_chars(u.as_slice());
    let mut r = to_lowercase(us.as_str());
    push_str(&mut r, ".yml");
    r
}

/// The folder a new config is saved in: the config library folder from Settings when it is
/// set, else `{workbench}/g/config` when Workbench's folder is set at all, else none.
pub open spec fn spec_library_dir(values: Map<Seq<char>, crate::settings::ValView>) -> Option<
    Seq<char>,
> {
    if values.dom().contains("config_library_dir"@) && !is_blank(
        value_text(values, "config_library_dir"@),
    ) {
        Some(value_text(values, "config_library_dir"@))
    } else if values.dom().contains("workbench_path"@) {
        Some(value_text(values, "workbench_path"@) + "/g/config"@)
    } else {
        None
    }
}

/// A blank library folder counts as none: with the Workbench folder set it falls back to
/// `{workbench}/g/config`, and in every case it chooses the same folder as no library setting
/// at all. A library folder that is not blank is used as it is.
pub proof fn lemma_blank_library_falls_back(values: Map<Seq<char>, crate::settings::ValView>)
    ensures
        values.dom().contains("config_library_dir"@) && is_blank(
            value_text(values, "config_library_dir"@),
        ) ==> spec_library_dir(values) == spec_library_dir(values.remove("config_library_dir"@)),
        !is_blank(value_text(values, "config_library_dir"@)) ==> spec_library_dir(values) == Some(
            value_text(values, "config_library_dir"@),
        ),
        is_blank(value_text(values, "config_library_dir"@)) && values.dom().contains(
            "workbench_path"@,
        ) ==> spec_library_dir(values) == Some(value_text(values, "workbench_path"@) + "/g/config"@),
{
    let r = values.remove("config_library_dir"@);
    reveal_strlit("config_library_dir");
    reveal_strlit("workbench_path");
    assert("config_library_dir"@.len() != "workbench_path"@.len());
    assert(!r.dom().contains("config_library_dir"@));
    if values.dom().contains("workbench_path"@) {
        assert(r.dom().contains("workbench_path"@));
        assert(r["workbench_path"@] == values["workbench_path"@]);
    }
    if !values.dom().contains("config_library_dir"@) {
        assert(is_blank(value_text(values, "config_library_dir"@)));
    }
}

impl AppSettings {
    /// The folder a new config is saved in.
    pub fn library_dir(&self) -> (r: Option<String>)
        ensures
            crate::settings::opt_text(r) == spec_library_dir(self@.values),
    {
        if self.values.contains_key("config_library_dir") {
            let t = self.value_text("config_library_dir");
            if !is_blank_str(t.as_str()) {
                return Some(t);
            }
        }
        if self.values.contains_key("workbench_path") {
            let mut t = self.value_text("workbench_path");
            push_str(&mut t, "/g/config");
            Some(t)
        } else {
            None
        }
    }

    /// The description the library holds for the config file `file_path`, or none.
    pub fn library_description(&self, file_path: &str) -> (r: String)
        ensures
            (exists|i: int|
                0 <= i < self@.task_configs.len() && self@.task_configs[i].file_path
                    == file_path@) ==> exists|i: int|
                0 <= i < self@.task_configs.len() && self@.task_configs[i].file_path == file_path@
                    && r@ == self@.task_configs[i].description && forall|j: int|
                    0 <= j < i ==> self@.task_configs[j].file_path != file_path@,
            !(exists|i: int|
                0 <= i < self@.task_configs.len() && self@.task_configs[i].file_path
                    == file_path@) ==> r@ == Seq::<char>::empty(),
    {
        match self.saved_config_index(file_path) {
            Some(i) => self.task_configs[i].description.clone(),
            None => String::new(),
        }
    }

    fn saved_config_index(&self, file_path: &str) -> (r: Option<usize>)
        ensures
            match r {
                Some(i) => i < self@.task_configs.len() && self@.task_configs[i as int].file_path
                    == file_path@ && forall|j: int|
                    0 <= j < i ==> self@.task_configs[j].file_path != file_path@,
                None => forall|j: int|
                    0 <= j < self@.task_configs.len() ==> self@.task_configs[j].file_path
                        != file_path@,
            },
    {
        let p = owned(file_path);
        let mut i: usize = 0;
        while i < self.task_configs.len()
            invariant
                i <= self.task_configs@.len(),
                p@ == file_path@,
                forall|j: int|
                    0 <= j < i ==> (#[trigger] self@.task_configs[j]).file_path != file_path@,
            decreases self.task_configs@.len() - i,
        {
            if text_equal(&self.task_configs[i].file_path, &p) {
                return Some(i);
            }
            i = i + 1;
        }
        None
    }

    /// Adds a saved config to the library, or replaces the entry that points at the same file.
    pub fn record_saved_config(&mut self, entry: TaskConfig)
        ensures
            ({
                let old_list = old(self)@.task_configs;
                let list = if exists|i: int|
                    0 <= i < old_list.len() && old_list[i].file_path == entry@.file_path {
                    let i = choose|i: int|
                        0 <= i < old_list.len() && old_list[i].file_path == entry@.file_path
                            && forall|j: int| 0 <= j < i ==> old_list[j].file_path != entry@.file_path;
                    old_list.update(i, entry@)
                } else {
                    old_list.push(entry@)
                };
                final(self)@ == AppSettingsView { task_configs: list, ..old(self)@ }
            }),
    {
        let ghost before = self.task_configs@;
        let ghost ev = entry@;
        match self.saved_config_index(entry.file_path.as_str()) {
            Some(i) => {
                self.task_configs.set(i, entry);
                proof {
                    let old_list = old(self)@.task_configs;
                    let c = choose|k: int|
                        0 <= k < old_list.len() && old_list[k].file_path == ev.file_path
                            && forall|j: int| 0 <= j < k ==> old_list[j].file_path != ev.file_path;
                    assert(0 <= c < old_list.len() && old_list[c].file_path == ev.file_path
                        && forall|j: int| 0 <= j < c ==> old_list[j].file_path != ev.file_path);
                    if c < i {
                        assert(old_list[c].file_path != ev.file_path);
                    }
                    if i < c {
                        assert(old_list[i as int].file_path != ev.file_path);
                    }
                    assert(self.task_configs@.map_values(|t: TaskConfig| t@) =~= before.map_values(
                        |t: TaskConfig| t@,
                    ).update(i as int, ev));
                }
            },
            None => {
                self.task_configs.push(entry);
                assert(self.task_configs@.map_values(|t: TaskConfig| t@) =~= before.map_values(
                    |t: TaskConfig| t@,
                ).push(ev));
            },
        }
    }
}

/// Where a draft is saved: its own file, else a file named after its label in the library
/// folder; nothing when there is neither.
pub fn target_path(draft: &ConfigDraft, settings: &AppSettings) -> (r: Option<String>)
    ensures
        draft.path matches Some(p) ==> (r matches Some(t) && t@ == p@),
        draft.path is None ==> (r is Some <==> spec_library_dir(settings@.values) is Some),
        draft.path is None && spec_library_dir(settings@.values) is Some && plain_component(
            spec_config_file_name(draft.label@),
        ) ==> r is Some && spec_config_file_name(draft.label@).is_suffix_of(r->0@),
        draft.path is None && spec_library_dir(settings@.values) is Some && simple_dir(
            spec_library_dir(settings@.values)->0,
        ) && plain_component(spec_config_file_name(draft.label@)) ==> r is Some && adjoined(
            spec_library_dir(settings@.values)->0,
            spec_config_file_name(draft.label@),
            r->0@,
        ),
{
    match &draft.path {
        Some(p) => Some(p.clone()),
        None => match settings.library_dir() {
            Some(dir) => {
                let name = config_file_name(draft.label.as_str());
                Some(join_path(dir.as_str(), name.as_str()))
            },
            None => None,
        },
    }
}

/// The label a saved config is filed under, once the stem of the saved file is known: the
/// draft's label, else the stem, else "Untitled".
pub fn saved_label_from(label: &str, stem: Option<String>) -> (r: String)
    ensures
        !is_blank(label@) ==> r@ == label@,
        is_blank(label@) ==> r@ == match opt_text(stem) {
            Some(s) => s,
            None => "Untitled"@,
        },
{
    if !is_blank_str(label) {
        return owned(label);
    }
    match stem {
        Some(s) => s,
        None => owned("Untitled"),
    }
}

/// The label a saved config is filed under: the draft's label, else the saved file's stem,
/// else "Untitled".
pub fn saved_label(label: &str, saved_path: &str) -> (r: String)
    ensures
        !is_blank(label@) ==> r@ == label@,
        is_blank(label@) && simple_path(saved_path@) ==> r@ == file_stem_of(last_segment(saved_path@)),
{
    saved_label_from(label, path_stem(saved_path))
}

/// The task a config names: its `task` setting when that is text (tags looked through), else
/// nothing.
pub open spec fn spec_draft_task(s: Seq<(Seq<char>, YamlView)>) -> Seq<char> {
    match entry_get(s, "task"@) {
        Some(v) => match untag(v) {
            YamlView::Text(t) => t,
            _ => Seq::empty(),
        },
        None => Seq::empty(),
    }
}

/// The task a config names.
pub fn draft_task(values: &DraftValues) -> (r: String)
    ensures
        r@ == spec_draft_task(values.view_entries()),
{
    match values.get("task") {
        Some(v) => match v.untagged() {
            YamlValue::String(t) => t.clone(),
            _ => String::new(),
        },
        None => String::new(),
    }
}

/// Whether a setting's value differs from the catalogue's default (which shows the hint).
pub fn is_modified(value: &YamlValue, default: &YamlValue) -> (r: bool)
    ensures
        r == (value@ != default@),
{
    !crate::yaml::values_equal(value, default)
}

/// The notice shown when a save cannot start: errors first, then a missing folder.
pub fn save_blocker(errors: usize, has_target: bool) -> (r: Option<String>)
    ensures
        errors > 0 ==> (r matches Some(n) && n@ == "Fix the problems below before saving."@),
        errors == 0 && !has_target ==> (r matches Some(n) && n@
            == "Set a config folder in Settings before saving a new config."@),
        errors == 0 && has_target ==> r is None,
{
    if errors > 0 {
        Some(owned("Fix the problems below before saving."))
    } else if !has_target {
        Some(owned("Set a config folder in Settings before saving a new config."))
    } else {
        None
    }
}

// ---------------------------------------------------------------------------------------------
// Validation problems.
// ---------------------------------------------------------------------------------------------

/// How serious a validation finding is.
#[derive(Clone, Copy, PartialEq, Eq, Structural, Debug)]
pub enum Severity {
    Pass,
    Warn,
    Error,
}

/// The order of severities, least serious first.
pub open spec fn severity_rank(s: Severity) -> nat {
    match s {
        Severity::Pass => 0,
        Severity::Warn => 1,
        Severity::Error => 2,
    }
}

/// One validation finding, about one setting or about the config as a whole.
pub struct Problem {
    pub key: Option<String>,
    pub severity: Severity,
    pub message: String,
}

/// Whether a finding is about the setting `key`.
pub open spec fn about(p: Problem, key: Seq<char>) -> bool {
    p.key matches Some(k) && k@ == key
}

/// How many findings have severity `s`.
pub open spec fn count_of(ps: Seq<Problem>, s: Severity) -> nat
    decreases ps.len(),
{
    if ps.len() == 0 {
        0
    } else {
        count_of(ps.drop_last(), s) + if ps.last().severity == s {
            1nat
        } else {
            0nat
        }
    }
}

/// How many findings have severity `severity`.
pub fn count(problems: &Vec<Problem>, severity: Severity) -> (r: usize)
    ensures
        r == count_of(problems@, severity),
{
    let mut n: usize = 0;
    let mut i: usize = 0;
    while i < problems.len()
        invariant
            i <= problems@.len(),
            n == count_of(problems@.subrange(0, i as int), severity),
            n <= i,
        decreases problems@.len() - i,
    {
        let ghost next = problems@.subrange(0, i + 1);
        assert(next.drop_last() =~= problems@.subrange(0, i as int));
        if problems[i].severity == severity {
            n = n + 1;
        }
        i = i + 1;
    }
    assert(problems@.subrange(0, problems@.len() as int) =~= problems@);
    n
}

/// The index of the first finding about `key` with severity `s`.
pub open spec fn first_about(ps: Seq<Problem>, key: Seq<char>, s: Severity) -> Option<int> {
    if exists|i: int| 0 <= i < ps.len() && about(ps[i], key) && ps[i].severity == s {
        Some(
            choose|i: int|
                0 <= i < ps.len() && about(ps[i], key) && ps[i].severity == s && forall|j: int|
                    0 <= j < i ==> !(about(ps[j], key) && ps[j].severity == s),
        )
    } else {
        None
    }
}

fn find_about(problems: &Vec<Problem>, key: &str, s: Severity) -> (r: Option<usize>)
    ensures
        match r {
            Some(i) => i < problems@.len() && first_about(problems@, key@, s) == Some(i as int),
            None => first_about(problems@, key@, s) is None,
        },
{
    let k = owned(key);
    let mut i: usize = 0;
    while i < problems.len()
        invariant
            i <= problems@.len(),
            k@ == key@,
            forall|j: int|
                0 <= j < i ==> !(about(#[trigger] problems@[j], key@) && problems@[j].severity == s),
        decreases problems@.len() - i,
    {
        let p = &problems[i];
        let is_about = match &p.key {
            Some(pk) => text_equal(pk, &k),
            None => false,
        };
        if is_about && p.severity == s {
            proof {
                let c = choose|c: int|
                    0 <= c < problems@.len() && about(problems@[c], key@) && problems@[c].severity == s
                        && forall|j: int|
                        0 <= j < c ==> !(about(problems@[j], key@) && problems@[j].severity == s);
                assert(about(problems@[i as int], key@) && problems@[i as int].severity == s);
                assert(0 <= c < problems@.len() && about(problems@[c], key@) && problems@[c].severity == s
                    && forall|j: int|
                    0 <= j < c ==> !(about(problems@[j], key@) && problems@[j].severity == s));
                if c < i {
                    assert(!(about(problems@[c], key@) && problems@[c].severity == s));
                }
                if i < c {
                    assert(!(about(problems@[i as int], key@) && problems@[i as int].severity == s));
                }
            }
            return Some(i);
        }
        i = i + 1;
    }
    None
}

/// The one message a setting's row shows: its first error, else its first warning.
pub open spec fn spec_row_note(ps: Seq<Problem>, key: Seq<char>) -> Option<(Severity, Seq<char>)> {
    match first_about(ps, key, Severity::Error) {
        Some(i) => Some((Severity::Error, ps[i].message@)),
        None => match first_about(ps, key, Severity::Warn) {
            Some(i) => Some((Severity::Warn, ps[i].message@)),
            None => None,
        },
    }
}

/// The one message a setting's row shows, with its severity.
pub fn row_note(problems: &Vec<Problem>, key: &str) -> (r: Option<(Severity, String)>)
    ensures
        match r {
            Some((s, m)) => spec_row_note(problems@, key@) == Some((s, m@)),
            None => spec_row_note(problems@, key@) is None,
        },
{
    match find_about(problems, key, Severity::Error) {
        Some(i) => Some((Severity::Error, problems[i].message.clone())),
        None => match find_about(problems, key, Severity::Warn) {
            Some(i) => Some((Severity::Warn, problems[i].message.clone())),
            None => None,
        },
    }
}

/// The most serious severity among the findings about `key`.
pub open spec fn max_severity(ps: Seq<Problem>, key: Seq<char>) -> Option<Severity>
    decreases ps.len(),
{
    if ps.len() == 0 {
        None
    } else {
        let rest = max_severity(ps.drop_last(), key);
        let p = ps.last();
        if about(p, key) {
            match rest {
                Some(s) => if severity_rank(p.severity) > severity_rank(s) {
                    Some(p.severity)
                } else {
                    Some(s)
                },
                None => Some(p.severity),
            }
        } else {
            rest
        }
    }
}

fn max_severity_exec(problems: &Vec<Problem>, key: &String) -> (r: Option<Severity>)
    ensures
        r == max_severity(problems@, key@),
{
    let mut best: Option<Severity> = None;
    let mut i: usize = 0;
    while i < problems.len()
        invariant
            i <= problems@.len(),
            best == max_severity(problems@.subrange(0, i as int), key@),
        decreases problems@.len() - i,
    {
        let ghost next = problems@.subrange(0, i + 1);
        assert(next.drop_last() =~= problems@.subrange(0, i as int));
        let p = &problems[i];
        let is_about = match &p.key {
            Some(pk) => text_equal(pk, key),
            None => false,
        };
        if is_about {
            best = match best {
                Some(s) => {
                    let more = match (p.severity, s) {
                        (Severity::Error, Severity::Warn) => true,
                        (Severity::Error, Severity::Pass) => true,
                        (Severity::Warn, Severity::Pass) => true,
                        _ => false,
                    };
                    if more {
                        Some(p.severity)
                    } else {
                        Some(s)
                    }
                },
                None => Some(p.severity),
            };
        }
        i = i + 1;
    }
    assert(problems@.subrange(0, problems@.len() as int) =~= problems@);
    best
}

// ---------------------------------------------------------------------------------------------
// The YAML preview.
// ---------------------------------------------------------------------------------------------

/// The index of the first `c` in `s`, or `s.len()`.
pub open spec fn first_index_of(s: Seq<char>, c: char) -> int
    decreases s.len(),
{
    if s.len() == 0 {
        0
    } else if s[0] == c {
        0
    } else {
        1 + first_index_of(s.drop_first(), c)
    }
}

/// The lines of a text as `str::lines` gives them: split at each `\n`, a `\r` before it
/// dropped, no empty line after a final `\n`.
pub open spec fn text_lines(t: Seq<char>) -> Seq<Seq<char>>
    decreases t.len(),
{
    if t.len() == 0 {
        Seq::empty()
    } else {
        let i = first_index_of(t, '\n');
        if i >= t.len() {
            seq![t]
        } else {
            let line = t.subrange(0, i);
            let line = if line.len() > 0 && line.last() == '\r' {
                line.drop_last()
            } else {
                line
            };
            proof {
                lemma_first_index_of(t, '\n');
            }
            seq![line] + text_lines(t.subrange(i + 1, t.len() as int))
        }
    }
}

pub proof fn lemma_first_index_of(s: Seq<char>, c: char)
    ensures
        0 <= first_index_of(s, c) <= s.len(),
        first_index_of(s, c) < s.len() ==> s[first_index_of(s, c)] == c,
        forall|j: int| 0 <= j < first_index_of(s, c) ==> s[j] != c,
    decreases s.len(),
{
    if s.len() > 0 && s[0] != c {
        lemma_first_index_of(s.drop_first(), c);
        assert forall|j: int| 0 <= j < first_index_of(s, c) implies s[j] != c by {
            if j > 0 {
                assert(s[j] == s.drop_first()[j - 1]);
            }
        }
    }
}

/// The key a preview line names: the text before its first `:`, unless the line is indented or
/// a list item, or the text is empty; then the line belongs to the key before it.
pub open spec fn line_key(line: Seq<char>, current: Seq<char>) -> Seq<char> {
    let head = line.subrange(0, first_index_of(line, ':'));
    if line.len() > 0 && (line[0] == ' ' || line[0] == '-' || line[0] == '\t') {
        current
    } else if head.len() == 0 {
        current
    } else {
        head
    }
}

/// The key each of `lines` belongs to, starting from none.
pub open spec fn line_keys(lines: Seq<Seq<char>>) -> Seq<Seq<char>>
    decreases lines.len(),
{
    if lines.len() == 0 {
        Seq::empty()
    } else {
        let before = line_keys(lines.drop_last());
        let current = if before.len() == 0 {
            Seq::empty()
        } else {
            before.last()
        };
        before.push(line_key(lines.last(), current))
    }
}

/// One preview line: its number from 1, its text, and the most serious finding about its key.
pub struct PreviewLine {
    pub number: usize,
    pub text: String,
    pub severity: Option<Severity>,
}

/// `j` is the first index of `c` in `s` (or `s.len()`) when `c` is at `j` and nowhere before.
pub proof fn lemma_first_index_at(s: Seq<char>, c: char, j: int)
    requires
        0 <= j <= s.len(),
        j < s.len() ==> s[j] == c,
        forall|k: int| 0 <= k < j ==> s[k] != c,
    ensures
        first_index_of(s, c) == j,
    decreases s.len(),
{
    if s.len() > 0 && j > 0 {
        assert(s[0] != c);
        assert forall|k: int| 0 <= k < j - 1 implies s.drop_first()[k] != c by {
            assert(s.drop_first()[k] == s[k + 1]);
        }
        lemma_first_index_at(s.drop_first(), c, j - 1);
    }
}

/// The views of a list of texts.
pub open spec fn line_texts(v: Seq<String>) -> Seq<Seq<char>> {
    v.map_values(|s: String| s@)
}

/// The lines of a text, as `str::lines` gives them.
pub fn split_lines(t: &str) -> (r: Vec<String>)
    ensures
        line_texts(r@) == text_lines(t@),
{
    let cs = chars_of(t);
    let n = cs.len();
    let mut r: Vec<String> = Vec::new();
    let mut start: usize = 0;
    assert(cs@.subrange(0, n as int) =~= cs@);
    assert(line_texts(r@) =~= Seq::<Seq<char>>::empty());
    assert(Seq::<Seq<char>>::empty() + text_lines(cs@) =~= text_lines(cs@));
    while start < n
        invariant
            n == cs@.len(),
            cs@ == t@,
            start <= n,
            line_texts(r@) + text_lines(cs@.subrange(start as int, n as int)) == text_lines(cs@),
        decreases n - start,
    {
        let ghost rest = cs@.subrange(start as int, n as int);
        let mut i: usize = start;
        while i < n && cs[i] != '\n'
            invariant
                start <= i <= n,
                n == cs@.len(),
                forall|k: int| start <= k < i ==> cs@[k] != '\n',
            decreases n - i,
        {
            i = i + 1;
        }
        proof {
            assert forall|k: int| 0 <= k < i - start implies rest[k] != '\n' by {
                assert(rest[k] == cs@[start + k]);
            }
            if i < n {
                assert(rest[i - start] == cs@[i as int]);
            }
            lemma_first_index_at(rest, '\n', (i - start) as int);
        }
        let mut end = i;
        if i < n && end > start && cs[end - 1] == '\r' {
            end = end - 1;
        }
        let mut line: Vec<char> = Vec::new();
        let mut k: usize = start;
        while k < end
            invariant
                start <= k <= end,
                end <= n,
                n == cs@.len(),
                line@ == cs@.subrange(start as int, k as int),
            decreases end - k,
        {
            line.push(cs[k]);
            k = k + 1;
        }
        let ghost before = line_texts(r@);
        r.push(string_from_chars(line.as_slice()));
        proof {
            assert(line_texts(r@) =~= before.push(line@));
            if i < n {
                let whole = rest.subrange(0, (i - start) as int);
                assert(whole =~= cs@.subrange(start as int, i as int));
                let next_rest = cs@.subrange(i + 1, n as int);
                assert(rest.subrange((i - start) + 1, rest.len() as int) =~= next_rest);
                if i > start && cs@[i - 1] == '\r' {
                    assert(whole.last() == cs@[i - 1]);
                    assert(whole.drop_last() =~= line@);
                } else {
                    assert(whole =~= line@);
                }
                assert(text_lines(rest) == seq![line@] + text_lines(next_rest));
                assert(line_texts(r@) + text_lines(next_rest) =~= before + text_lines(rest));
            } else {
                assert(line@ =~= rest);
                assert(text_lines(rest) == seq![rest]);
                assert(cs@.subrange(n as int, n as int) =~= Seq::<char>::empty());
                assert(line_texts(r@) + text_lines(cs@.subrange(n as int, n as int)) =~= before
                    + text_lines(rest));
            }
        }
        start = if i < n {
            i + 1
        } else {
            n
        };
    }
    proof {
        assert(cs@.subrange(n as int, n as int) =~= Seq::<char>::empty());
        assert(cs@.subrange(0, n as int) =~= cs@);
    }
    assert(line_texts(r@) + Seq::<Seq<char>>::empty() =~= line_texts(r@));
    r
}

/// The lines of the YAML preview, each numbered and marked with the most serious finding about
/// the key it belongs to.
pub open spec fn spec_preview_lines(yaml: Seq<char>, ps: Seq<Problem>) -> Seq<
    (nat, Seq<char>, Option<Severity>),
> {
    let ls = text_lines(yaml);
    let ks = line_keys(ls);
    Seq::new(ls.len(), |i: int| ((i + 1) as nat, ls[i], max_severity(ps, ks[i])))
}

proof fn lemma_line_keys_len(lines: Seq<Seq<char>>)
    ensures
        line_keys(lines).len() == lines.len(),
    decreases lines.len(),
{
    if lines.len() > 0 {
        lemma_line_keys_len(lines.drop_last());
    }
}

proof fn lemma_line_keys_prefix(lines: Seq<Seq<char>>, i: int)
    requires
        0 <= i < lines.len(),
    ensures
        line_keys(lines.subrange(0, i + 1)) == line_keys(lines.subrange(0, i)).push(
            line_key(
                lines[i],
                if i == 0 {
                    Seq::empty()
                } else {
                    line_keys(lines.subrange(0, i)).last()
                },
            ),
        ),
        line_keys(lines.subrange(0, i + 1)).len() == i + 1,
{
    let p = lines.subrange(0, i + 1);
    assert(p.drop_last() =~= lines.subrange(0, i));
    lemma_line_keys_len(lines.subrange(0, i));
    lemma_line_keys_len(p);
}

proof fn lemma_line_keys_extend(lines: Seq<Seq<char>>, i: int, j: int)
    requires
        0 <= j < i <= lines.len(),
    ensures
        line_keys(lines.subrange(0, i))[j] == line_keys(lines.subrange(0, j + 1))[j],
    decreases i - j,
{
    lemma_line_keys_len(lines.subrange(0, i));
    if i > j + 1 {
        lemma_line_keys_extend(lines, i - 1, j);
        lemma_line_keys_prefix(lines, i - 1);
        lemma_line_keys_len(lines.subrange(0, i - 1));
    }
}

fn line_key_exec(line: &String, current: &String) -> (r: String)
    ensures
        r@ == line_key(line@, current@),
{
    let lc = chars_of(line.as_str());
    let mut k: usize = 0;
    while k < lc.len() && lc[k] != ':'
        invariant
            k <= lc@.len(),
            forall|j: int| 0 <= j < k ==> lc@[j] != ':',
        decreases lc@.len() - k,
    {
        k = k + 1;
    }
    proof {
        lemma_first_index_at(lc@, ':', k as int);
    }
    if lc.len() > 0 && (lc[0] == ' ' || lc[0] == '-' || lc[0] == '\t') {
        return current.clone();
    }
    if k == 0 {
        return current.clone();
    }
    let head = crate::text::chars_before(&lc, k);
    string_from_chars(head.as_slice())
}

/// The lines of the YAML preview, numbered and marked.
pub fn preview_lines(yaml: &str, problems: &Vec<Problem>) -> (r: Vec<PreviewLine>)
    ensures
        r@.len() == spec_preview_lines(yaml@, problems@).len(),
        forall|i: int|
            0 <= i < r@.len() ==> ((#[trigger] r@[i]).number as nat, r@[i].text@, r@[i].severity)
                == spec_preview_lines(yaml@, problems@)[i],
{
    let lines = split_lines(yaml);
    let ghost ls = text_lines(yaml@);
    proof {
        lemma_line_keys_len(ls);
    }
    let mut out: Vec<PreviewLine> = Vec::new();
    let mut current = String::new();
    let mut i: usize = 0;
    while i < lines.len()
        invariant
            i <= lines@.len(),
            line_texts(lines@) == ls,
            ls == text_lines(yaml@),
            line_keys(ls).len() == ls.len(),
            out@.len() == i,
            i > 0 ==> current@ == line_keys(ls.subrange(0, i as int)).last(),
            i == 0 ==> current@ == Seq::<char>::empty(),
            forall|j: int|
                0 <= j < i ==> ((#[trigger] out@[j]).number as nat, out@[j].text@, out@[j].severity)
                    == spec_preview_lines(yaml@, problems@)[j],
        decreases lines@.len() - i,
    {
        assert(lines@[i as int]@ == ls[i as int]);
        let key = line_key_exec(&lines[i], &current);
        proof {
            lemma_line_keys_prefix(ls, i as int);
            lemma_line_keys_extend(ls, ls.len() as int, i as int);
            assert(ls.subrange(0, ls.len() as int) =~= ls);
        }
        let severity = max_severity_exec(problems, &key);
        out.push(PreviewLine { number: i + 1, text: lines[i].clone(), severity });
        current = key;
        i = i + 1;
    }
    out
}

/// The chips under the preview: `line N: error` or `line N: warning` for each marked line.
pub open spec fn spec_problem_chips(lines: Seq<(nat, Seq<char>, Option<Severity>)>) -> Seq<Seq<char>>
    decreases lines.len(),
{
    if lines.len() == 0 {
        Seq::empty()
    } else {
        let rest = spec_problem_chips(lines.drop_last());
        let (n, _, s) = lines.last();
        match s {
            Some(Severity::Error) => rest.push("line "@ + crate::text::decimal(n) + ": error"@),
            Some(Severity::Warn) => rest.push("line "@ + crate::text::decimal(n) + ": warning"@),
            _ => rest,
        }
    }
}

/// The chips under the preview.
pub fn problem_chips(lines: &Vec<PreviewLine>) -> (r: Vec<String>)
    ensures
        line_texts(r@) == spec_problem_chips(
            lines@.map_values(|l: PreviewLine| (l.number as nat, l.text@, l.severity)),
        ),
{
    let ghost lv = lines@.map_values(|l: PreviewLine| (l.number as nat, l.text@, l.severity));
    let mut r: Vec<String> = Vec::new();
    let mut i: usize = 0;
    while i < lines.len()
        invariant
            i <= lines@.len(),
            lv == lines@.map_values(|l: PreviewLine| (l.number as nat, l.text@, l.severity)),
            line_texts(r@) == spec_problem_chips(lv.subrange(0, i as int)),
        decreases lines@.len() - i,
    {
        let ghost next = lv.subrange(0, i + 1);
        assert(next.drop_last() =~= lv.subrange(0, i as int));
        let ghost before = line_texts(r@);
        let l = &lines[i];
        match l.severity {
            Some(Severity::Error) => {
                let mut c = owned("line ");
                push_str(&mut c, crate::text::usize_to_text(l.number).as_str());
                push_str(&mut c, ": error");
                r.push(c);
                assert(line_texts(r@) =~= before.push(c@));
            },
            Some(Severity::Warn) => {
                let mut c = owned("line ");
                push_str(&mut c, crate::text::usize_to_text(l.number).as_str());
                push_str(&mut c, ": warning");
                r.push(c);
                assert(line_texts(r@) =~= before.push(c@));
            },
            _ => {},
        }
        i = i + 1;
    }
    assert(lv.subrange(0, lines@.len() as int) =~= lv);
    r
}

// ---------------------------------------------------------------------------------------------
// The settings list and the search selection.
// ---------------------------------------------------------------------------------------------

/// The keys the settings list shows: every key of the draft but `secondary_tasks` (which has
/// its own section) and those the app supplies at run time.
pub open spec fn spec_editable_keys(
    s: Seq<(Seq<char>, YamlView)>,
    app_supplied: Seq<Seq<char>>,
) -> Seq<Seq<char>>
    decreases s.len(),
{
    if s.len() == 0 {
        Seq::empty()
    } else {
        let rest = spec_editable_keys(s.drop_last(), app_supplied);
        let k = s.last().0;
        if k == "secondary_tasks"@ || app_supplied.contains(k) {
            rest
        } else {
            rest.push(k)
        }
    }
}

/// The keys the settings list shows, in the draft's order.
pub fn editable_keys(values: &DraftValues, app_supplied: &Vec<String>) -> (r: Vec<String>)
    ensures
        line_texts(r@) == spec_editable_keys(values.view_entries(), line_texts(app_supplied@)),
{
    let entries = values.entries();
    let ghost ev = crate::draft::entries_view(entries@);
    let ghost sup = line_texts(app_supplied@);
    let secondary = owned("secondary_tasks");
    let mut r: Vec<String> = Vec::new();
    let mut i: usize = 0;
    while i < entries.len()
        invariant
            i <= entries@.len(),
            ev == crate::draft::entries_view(entries@),
            ev == values.view_entries(),
            sup == line_texts(app_supplied@),
            secondary@ == "secondary_tasks"@,
            line_texts(r@) == spec_editable_keys(ev.subrange(0, i as int), sup),
        decreases entries@.len() - i,
    {
        let ghost next = ev.subrange(0, i + 1);
        assert(next.drop_last() =~= ev.subrange(0, i as int));
        let k = &entries[i].0;
        let mut supplied = false;
        let mut j: usize = 0;
        while j < app_supplied.len()
            invariant
                j <= app_supplied@.len(),
                sup == line_texts(app_supplied@),
                supplied == exists|t: int| 0 <= t < j && sup[t] == k@,
            decreases app_supplied@.len() - j,
        {
            assert(sup[j as int] == app_supplied@[j as int]@);
            if text_equal(&app_supplied[j], k) {
                supplied = true;
            }
            j = j + 1;
        }
        proof {
            if supplied {
                let t = choose|t: int| 0 <= t < app_supplied@.len() && sup[t] == k@;
                assert(sup.contains(k@));
            } else {
                assert(!sup.contains(k@));
            }
        }
        if !(text_equal(k, &secondary) || supplied) {
            let ghost before = line_texts(r@);
            r.push(k.clone());
            assert(line_texts(r@) =~= before.push(k@));
        }
        i = i + 1;
    }
    assert(ev.subrange(0, entries@.len() as int) =~= ev);
    r
}

/// The search result to select: the current one while it is still listed and not yet added,
/// else the first listed result not yet added.
pub open spec fn spec_search_selection(
    keys: Seq<Seq<char>>,
    selected: Option<Seq<char>>,
    s: Seq<(Seq<char>, YamlView)>,
) -> Option<Seq<char>> {
    let valid = match selected {
        Some(k) => keys.contains(k) && entry_index(s, k) is None,
        None => false,
    };
    if valid {
        selected
    } else if exists|i: int| 0 <= i < keys.len() && entry_index(s, keys[i]) is None {
        let i = choose|i: int|
            0 <= i < keys.len() && entry_index(s, keys[i]) is None && forall|j: int|
                0 <= j < i ==> entry_index(s, keys[j]) is Some;
        Some(keys[i])
    } else {
        None
    }
}

/// The search result to select after the results or the draft change.
pub fn ensure_search_selection(keys: &Vec<String>, selected: Option<&String>, values: &DraftValues) -> (r:
    Option<String>)
    ensures
        crate::settings::opt_text(r) == spec_search_selection(
            line_texts(keys@),
            match selected {
                Some(k) => Some(k@),
                None => None,
            },
            values.view_entries(),
        ),
{
    let ghost kv = line_texts(keys@);
    let ghost sel = match selected {
        Some(k) => Some(k@),
        None => None::<Seq<char>>,
    };
    if let Some(cur) = selected {
        let mut listed = false;
        let mut j: usize = 0;
        while j < keys.len()
            invariant
                j <= keys@.len(),
                kv == line_texts(keys@),
                listed == exists|t: int| 0 <= t < j && kv[t] == cur@,
            decreases keys@.len() - j,
        {
            assert(kv[j as int] == keys@[j as int]@);
            if text_equal(&keys[j], cur) {
                listed = true;
            }
            j = j + 1;
        }
        proof {
            if listed {
                let t = choose|t: int| 0 <= t < keys@.len() && kv[t] == cur@;
                assert(kv.contains(cur@));
            } else {
                assert(!kv.contains(cur@));
            }
        }
        if listed && !values.contains_key(cur.as_str()) {
            return Some(cur.clone());
        }
    }
    let mut i: usize = 0;
    while i < keys.len()
        invariant
            i <= keys@.len(),
            kv == line_texts(keys@),
            sel == match selected {
                Some(k) => Some(k@),
                None => None::<Seq<char>>,
            },
            !(match sel {
                Some(k) => kv.contains(k) && entry_index(values.view_entries(), k) is None,
                None => false,
            }),
            forall|j: int| 0 <= j < i ==> entry_index(values.view_entries(), #[trigger] kv[j]) is Some,
        decreases keys@.len() - i,
    {
        assert(kv[i as int] == keys@[i as int]@);
        if !values.contains_key(keys[i].as_str()) {
            proof {
                let s = values.view_entries();
                assert(entry_index(s, kv[i as int]) is None);
                let c = choose|c: int|
                    0 <= c < kv.len() && entry_index(s, kv[c]) is None && forall|j: int|
                        0 <= j < c ==> entry_index(s, kv[j]) is Some;
                assert(0 <= c < kv.len() && entry_index(s, kv[c]) is None && forall|j: int|
                    0 <= j < c ==> entry_index(s, kv[j]) is Some);
                if c < i {
                    assert(entry_index(s, kv[c]) is Some);
                }
                if i < c {
                    assert(entry_index(s, kv[i as int]) is Some);
                }
            }
            return Some(keys[i].clone());
        }
        i = i + 1;
    }
    None
}

// ---------------------------------------------------------------------------------------------
// Notices and summaries.
// ---------------------------------------------------------------------------------------------

/// The text of the problem counter: "No problems", or how many to fix and how many to know.
pub open spec fn spec_problem_summary(errors: nat, warnings: nat) -> Seq<Seq<char>> {
    let none = if errors == 0 && warnings == 0 {
        seq!["No problems"@]
    } else {
        Seq::empty()
    };
    let with_errors = if errors > 0 {
        none.push(
            crate::text::decimal(errors) + " problem"@ + (if errors == 1 {
                Seq::empty()
            } else {
                "s"@
            }) + " to fix"@,
        )
    } else {
        none
    };
    if warnings > 0 {
        with_errors.push(
            crate::text::decimal(warnings) + " thing"@ + (if warnings == 1 {
                Seq::empty()
            } else {
                "s"@
            }) + " to know"@,
        )
    } else {
        with_errors
    }
}

fn counted(n: usize, noun: &str, tail: &str) -> (r: String)
    ensures
        r@ == crate::text::decimal(n as nat) + noun@ + (if n == 1 {
            Seq::empty()
        } else {
            "s"@
        }) + tail@,
{
    let mut r = crate::text::usize_to_text(n);
    push_str(&mut r, noun);
    let ghost mid = r@;
    if n != 1 {
        push_str(&mut r, "s");
    } else {
        assert(r@ =~= mid + Seq::<char>::empty());
    }
    push_str(&mut r, tail);
    r
}

/// The lines of the problem counter under the builder.
pub fn problem_summary(errors: usize, warnings: usize) -> (r: Vec<String>)
    ensures
        line_texts(r@) == spec_problem_summary(errors as nat, warnings as nat),
{
    let mut r: Vec<String> = Vec::new();
    if errors == 0 && warnings == 0 {
        r.push(owned("No problems"));
    }
    if errors > 0 {
        r.push(counted(errors, " problem", " to fix"));
    }
    if warnings > 0 {
        r.push(counted(warnings, " thing", " to know"));
    }
    assert(line_texts(r@) =~= spec_problem_summary(errors as nat, warnings as nat));
    r
}

/// How many options a segmented control shows at most; more become a dropdown.
pub const MAX_SEGMENTS: usize = 4;

/// Whether this many options belong in a segmented control.
pub fn segments_fit(count: usize) -> (r: bool)
    ensures
        r == (count <= MAX_SEGMENTS),
{
    count <= MAX_SEGMENTS
}

/// The notice when a config file cannot be opened.
pub fn open_failed_notice(path: &str, error: &str) -> (r: String)
    ensures
        r@ == "Couldn't open "@ + path@ + ": "@ + error@,
{
    let mut r = owned("Couldn't open ");
    push_str(&mut r, path);
    push_str(&mut r, ": ");
    push_str(&mut r, error);
    r
}

/// The notice when writing the config failed.
pub fn save_failed_notice(path: &str, error: &str) -> (r: String)
    ensures
        r@ == "Couldn't save "@ + path@ + ": "@ + error@,
{
    let mut r = owned("Couldn't save ");
    push_str(&mut r, path);
    push_str(&mut r, ": ");
    push_str(&mut r, error);
    r
}

/// The notice when a new child config was saved but could not be linked into its parent.
pub fn link_failed_notice(error: &str) -> (r: String)
    ensures
        r@ == "Saved, but couldn't link child: "@ + error@,
{
    let mut r = owned("Saved, but couldn't link child: ");
    push_str(&mut r, error);
    r
}

// ---------------------------------------------------------------------------------------------
// The default shown at the end of a search row.
// ---------------------------------------------------------------------------------------------

/// The length in bytes of a text's UTF-8 encoding (`str::len`).
pub open spec fn byte_len(s: Seq<char>) -> nat {
    vstd::utf8::encode_utf8(s).len()
}

proof fn lemma_encode_concat(a: Seq<char>, b: Seq<char>)
    ensures
        vstd::utf8::encode_utf8(a + b) == vstd::utf8::encode_utf8(a) + vstd::utf8::encode_utf8(b),
    decreases a.len(),
{
    if a.len() == 0 {
        assert(a + b =~= b);
        assert(vstd::utf8::encode_utf8(a) =~= Seq::<u8>::empty());
        assert(Seq::<u8>::empty() + vstd::utf8::encode_utf8(b) =~= vstd::utf8::encode_utf8(b));
    } else {
        lemma_encode_concat(a.drop_first(), b);
        assert((a + b).drop_first() =~= a.drop_first() + b);
        assert((a + b)[0] == a[0]);
        assert(vstd::utf8::encode_utf8(a + b) =~= vstd::utf8::encode_scalar(a[0] as u32)
            + vstd::utf8::encode_utf8(a.drop_first() + b));
        assert(vstd::utf8::encode_utf8(a) =~= vstd::utf8::encode_scalar(a[0] as u32)
            + vstd::utf8::encode_utf8(a.drop_first()));
    }
}

/// The number of bytes UTF-8 uses for `c`.
fn utf8_width(c: char) -> (w: usize)
    ensures
        w == vstd::utf8::encode_scalar(c as u32).len(),
        1 <= w <= 4,
{
    let n = c as u32;
    if n <= 0x7F {
        1
    } else if n <= 0x7FF {
        2
    } else if n <= 0xFFFF && !(0xD800 <= n && n <= 0xDFFF) {
        3
    } else {
        4
    }
}

proof fn lemma_byte_len_step(s: Seq<char>, i: int)
    requires
        0 <= i < s.len(),
    ensures
        byte_len(s.subrange(0, i + 1)) == byte_len(s.subrange(0, i)) + vstd::utf8::encode_scalar(
            s[i] as u32,
        ).len(),
{
    assert(s.subrange(0, i + 1) =~= s.subrange(0, i) + seq![s[i]]);
    lemma_encode_concat(s.subrange(0, i), seq![s[i]]);
    assert(seq![s[i]].drop_first() =~= Seq::<char>::empty());
    assert(vstd::utf8::encode_utf8(seq![s[i]]) =~= vstd::utf8::encode_scalar(s[i] as u32)
        + vstd::utf8::encode_utf8(Seq::<char>::empty()));
}

proof fn lemma_byte_len_monotone(s: Seq<char>, i: int, j: int)
    requires
        0 <= i <= j <= s.len(),
    ensures
        byte_len(s.subrange(0, i)) + (j - i) <= byte_len(s.subrange(0, j)),
    decreases j - i,
{
    if i < j {
        lemma_byte_len_monotone(s, i, j - 1);
        lemma_byte_len_step(s, j - 1);
    }
}

/// Whether the first 24 bytes of `s` end on a character boundary (as slicing them needs).
pub open spec fn cuts_at_24(s: Seq<char>) -> bool {
    exists|k: int| 0 <= k <= s.len() && byte_len(#[trigger] s.subrange(0, k)) == 24
}

/// The default at the end of a search row, short enough to fit: a dash for null, booleans and
/// numbers as written, text up to 24 bytes whole and longer text cut at 24 bytes with `…`, and
/// the size of a list or map; nothing for a tagged value.
pub fn default_preview(value: &YamlValue) -> (r: String)
    requires
        value@ matches YamlView::Text(s) ==> byte_len(s) <= 24 || cuts_at_24(s),
    ensures
        value@ is Null ==> r@ == "\u{2014}"@,
        value@ matches YamlView::Bool(b) ==> r@ == (if b {
            seq!['t', 'r', 'u', 'e']
        } else {
            seq!['f', 'a', 'l', 's', 'e']
        }),
        value@ matches YamlView::Number(n) ==> r@ == crate::yaml::number_text(n),
        value@ matches YamlView::Text(s) ==> (byte_len(s) <= 24 ==> r@ == s),
        value@ matches YamlView::Text(s) ==> (byte_len(s) > 24 ==> forall|k: int|
            0 <= k <= s.len() && byte_len(#[trigger] s.subrange(0, k)) == 24 ==> r@ == s.subrange(
                0,
                k,
            ) + "\u{2026}"@),
        value@ matches YamlView::Sequence(items) ==> r@ == crate::text::decimal(items.len())
            + " items"@,
        value@ matches YamlView::Mapping(m) ==> r@ == crate::text::decimal(m.len()) + " entries"@,
        value@ is Tagged ==> r@ == Seq::<char>::empty(),
{
    match value {
        YamlValue::Null => owned("\u{2014}"),
        YamlValue::Bool(_) => crate::editors::scalar_text(value),
        YamlValue::Number(n) => n.to_text(),
        YamlValue::String(t) => {
            let cs = chars_of(t.as_str());
            let ghost sv = cs@;
            let mut bytes: usize = 0;
            let mut k: usize = 0;
            while k < cs.len() && bytes + utf8_width(cs[k]) <= 24
                invariant
                    sv == cs@,
                    sv == t@,
                    k <= cs@.len(),
                    bytes == byte_len(sv.subrange(0, k as int)),
                    bytes <= 24,
                decreases cs@.len() - k,
            {
                proof {
                    lemma_byte_len_step(sv, k as int);
                }
                bytes = bytes + utf8_width(cs[k]);
                k = k + 1;
            }
            if k == cs.len() {
                proof {
                    assert(sv.subrange(0, k as int) =~= sv);
                }
                return t.clone();
            }
            proof {
                lemma_byte_len_step(sv, k as int);
                lemma_byte_len_monotone(sv, k as int + 1, sv.len() as int);
                assert(sv.subrange(0, sv.len() as int) =~= sv);
                assert(byte_len(sv) > 24);
                assert(cuts_at_24(sv));
                let c = choose|c: int| 0 <= c <= sv.len() && byte_len(#[trigger] sv.subrange(0, c)) == 24;
                if c < k {
                    lemma_byte_len_monotone(sv, c + 1, k as int);
                    lemma_byte_len_step(sv, c);
                } else if c > k {
                    lemma_byte_len_monotone(sv, k as int + 1, c);
                }
                assert(c == k);
                assert forall|c2: int| 0 <= c2 <= sv.len() && byte_len(#[trigger] sv.subrange(0, c2)) == 24 implies c2 == k by {
                    if c2 < k {
                        lemma_byte_len_monotone(sv, c2 + 1, k as int);
                        lemma_byte_len_step(sv, c2);
                    } else if c2 > k {
                        lemma_byte_len_monotone(sv, k as int + 1, c2);
                    }
                }
            }
            let head = crate::text::chars_before(&cs, k);
            let mut r = string_from_chars(head.as_slice());
            push_str(&mut r, "\u{2026}");
            r
        },
        YamlValue::Sequence(items) => {
            proof {
                crate::yaml::lemma_seq_view(items@);
            }
            let mut r = crate::text::usize_to_text(items.len());
            push_str(&mut r, " items");
            r
        },
        YamlValue::Mapping(m) => {
            proof {
                crate::yaml::lemma_pairs_view(m@);
            }
            let mut r = crate::text::usize_to_text(m.len());
            push_str(&mut r, " entries");
            r
        },
        YamlValue::Tagged(_, _) => String::new(),
    }
}

} // verus!
