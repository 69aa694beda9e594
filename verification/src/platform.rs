//! The operating system's side of things that the application decides itself: which program
//! names to look for, how a path is quoted for AppleScript, and where the app keeps its files.
use vstd::prelude::*;
use crate::settings::{AppSettings, opt_text, path_setting};
use crate::text::owned;
use crate::yaml::text_equal;

verus! {

/// The app's own folder name under the local data folder.
pub const APP_DIR: &'static str = "islandora_workbench_gui";

/// The settings database's file name.
pub const DB_FILE: &'static str = "settings.sqlite3";

/// The key the settings record is stored under.
pub const SETTINGS_KEY: &'static str = "app_settings_v1";

/// The program names that `base` may be found under on the PATH: on Windows `python` and `uv`
/// are also looked for with `.exe`, first.
pub fn exe_candidates(base: &str, windows: bool) -> (r: Vec<String>)
    ensures
        r@.map_values(|s: String| s@) == (if windows && base@ == "python"@ {
            seq!["python.exe"@, "python"@]
        } else if windows && base@ == "uv"@ {
            seq!["uv.exe"@, "uv"@]
        } else {
            seq![base@]
        }),
{
    let mut r: Vec<String> = Vec::new();
    let b = owned(base);
    if windows && text_equal(&b, &owned("python")) {
        r.push(owned("python.exe"));
        r.push(owned("python"));
    } else if windows && text_equal(&b, &owned("uv")) {
        r.push(owned("uv.exe"));
        r.push(owned("uv"));
    } else {
        r.push(b);
    }
    assert(r@.map_values(|s: String| s@) =~= (if windows && base@ == "python"@ {
        seq!["python.exe"@, "python"@]
    } else if windows && base@ == "uv"@ {
        seq!["uv.exe"@, "uv"@]
    } else {
        seq![base@]
    }));
    r
}

/// The Python programs looked for on the PATH: those of `exe_candidates("python")`, and
/// `python3` last everywhere but on Windows.
pub fn python_candidates(windows: bool) -> (r: Vec<String>)
    ensures
        r@.map_values(|s: String| s@) == (if windows {
            seq!["python.exe"@, "python"@]
        } else {
            seq!["python"@, "python3"@]
        }),
{
    let mut r = exe_candidates("python", windows);
    let ghost before = r@.map_values(|s: String| s@);
    if !windows {
        r.push(owned("python3"));
        assert(r@.map_values(|s: String| s@) =~= before.push("python3"@));
    }
    assert(r@.map_values(|s: String| s@) =~= (if windows {
        seq!["python.exe"@, "python"@]
    } else {
        seq!["python"@, "python3"@]
    }));
    r
}

// ---------------------------------------------------------------------------------------------
// Paths read the same way on every platform.
// ---------------------------------------------------------------------------------------------

/// The text after the last `/` of `p` (all of `p` when it has none).
pub open spec fn last_segment(p: Seq<char>) -> Seq<char>
    decreases p.len(),
{
    if p.len() == 0 {
        p
    } else if p.last() == '/' {
        Seq::empty()
    } else {
        last_segment(p.drop_last()).push(p.last())
    }
}

/// Whether every platform splits `p` the same way and finds a file name at its end: it holds
/// no `\\` and no `:`, does not start with `//`, and its text after the last `/` is a name
/// other than `.` and `..`.
pub open spec fn simple_path(p: Seq<char>) -> bool {
    &&& forall|i: int| 0 <= i < p.len() ==> #[trigger] p[i] != '\\' && p[i] != ':'
    &&& !(p.len() >= 2 && p[0] == '/' && p[1] == '/')
    &&& last_segment(p).len() > 0
    &&& last_segment(p) != "."@
    &&& last_segment(p) != ".."@
}

/// The index of the last `c` in `s`, or -1.
pub open spec fn last_index_of(s: Seq<char>, c: char) -> int
    decreases s.len(),
{
    if s.len() == 0 {
        -1
    } else if s.last() == c {
        s.len() - 1
    } else {
        last_index_of(s.drop_last(), c)
    }
}

/// The stem of a file name: all of it when its only `.` is the first character or it has
/// none, else the part before the last `.`.
pub open spec fn file_stem_of(name: Seq<char>) -> Seq<char> {
    if last_index_of(name, '.') <= 0 {
        name
    } else {
        name.subrange(0, last_index_of(name, '.'))
    }
}

/// The extension of a file name, as `Path::extension` documents it: none when the name has no
/// `.` but a leading one, else the part after the last `.`.
pub open spec fn extension_of(name: Seq<char>) -> Option<Seq<char>> {
    if last_index_of(name, '.') <= 0 {
        None
    } else {
        Some(name.subrange(last_index_of(name, '.') + 1, name.len() as int))
    }
}

/// How one character is written inside an AppleScript string.
pub open spec fn applescript_char(c: char) -> Seq<char> {
    if c == '\\' {
        seq!['\\', '\\']
    } else if c == '"' {
        seq!['\\', '"']
    } else {
        seq![c]
    }
}

/// A text with each backslash and double quote escaped for AppleScript.
pub open spec fn spec_escape_applescript(s: Seq<char>) -> Seq<char>
    decreases s.len(),
{
    if s.len() == 0 {
        Seq::empty()
    } else {
        spec_escape_applescript(s.drop_last()) + applescript_char(s.last())
    }
}

/// A text made safe inside an AppleScript string: backslashes doubled, quotes escaped.
pub fn escape_applescript(s: &str) -> (r: String)
    ensures
        r@ == spec_escape_applescript(s@),
{
    let cs = crate::text::chars_of(s);
    let mut out: Vec<char> = Vec::new();
    let mut i: usize = 0;
    while i < cs.len()
        invariant
            i <= cs@.len(),
            out@ == spec_escape_applescript(cs@.subrange(0, i as int)),
        decreases cs@.len() - i,
    {
        let ghost next = cs@.subrange(0, i + 1);
        assert(next.drop_last() =~= cs@.subrange(0, i as int));
        let ghost before = out@;
        let c = cs[i];
        if c == '\\' {
            out.push('\\');
            out.push('\\');
        } else if c == '"' {
            out.push('\\');
            out.push('"');
        } else {
            out.push(c);
        }
        assert(out@ =~= before + applescript_char(c));
        i = i + 1;
    }
    assert(cs@.subrange(0, cs@.len() as int) =~= cs@);
    crate::text::string_from_chars(out.as_slice())
}

/// The OS's local data folder (`dirs::data_local_dir`, dirs), as text. Nothing is promised of
/// it: it depends on the platform and the environment. A folder whose name is not UTF-8 comes
/// back with its invalid parts replaced (`to_string_lossy`).
#[verifier::external_body]
fn local_data_dir() -> (r: Option<String>) {
    dirs::data_local_dir().map(|p| p.to_string_lossy().into_owned())
}

/// Whether `name` is a single plain path component on every platform: not empty, not `.` or
/// `..`, and free of `/`, `\\` and `:`, so that no platform reads a root or a prefix in it.
pub open spec fn plain_component(name: Seq<char>) -> bool {
    &&& name.len() > 0
    &&& name != "."@
    &&& name != ".."@
    &&& forall|i: int| 0 <= i < name.len() ==> #[trigger] name[i] != '/' && name[i] != '\\'
        && name[i] != ':'
}

/// Whether a character separates path components on some platform: `/` everywhere, `\\` on
/// Windows.
pub open spec fn is_sep(c: char) -> bool {
    c == '/' || c == '\\'
}

/// Whether every platform reads `dir` as a plain folder to adjoin to: it holds no `:` (so no
/// drive), does not start with two separators (so no verbatim, device or UNC prefix), and is
/// not a lone `\\`.
pub open spec fn simple_dir(dir: Seq<char>) -> bool {
    &&& forall|i: int| 0 <= i < dir.len() ==> #[trigger] dir[i] != ':'
    &&& !(dir.len() >= 2 && is_sep(dir[0]) && is_sep(dir[1]))
    &&& !(dir.len() == 1 && dir[0] == '\\')
}

/// Whether `joined` is `name` adjoined to `dir`: `dir`, then at most one separator, then `name`;
/// no separator after a `dir` that ends in `/`, and exactly one after a `dir` that does not end
/// in a separator. (Whether one follows an empty `dir` or one ending in `\\` depends on the
/// platform.)
pub open spec fn adjoined(dir: Seq<char>, name: Seq<char>, joined: Seq<char>) -> bool {
    &&& dir.is_prefix_of(joined)
    &&& name.is_suffix_of(joined)
    &&& (joined.len() == dir.len() + name.len() || (joined.len() == dir.len() + name.len() + 1
        && is_sep(joined[dir.len() as int])))
    &&& (dir.len() > 0 && dir.last() == '/' ==> joined.len() == dir.len() + name.len())
    &&& (dir.len() > 0 && !is_sep(dir.last()) ==> joined.len() == dir.len() + name.len() + 1)
}

/// `name` placed in the folder `dir` (`Path::join`, std). `Path::join` adjoins a relative path
/// to `dir` as `PathBuf::push` does: a separator (`/`, or `\\` on Windows) is put between them
/// when `dir` does not already end in one, and none after an empty `dir`. The statement is made
/// only for a plain component and a simple folder: a folder with a drive or a verbatim prefix
/// may be rewritten by the join (a verbatim path is normalised), and that is not stated.
#[verifier::external_body]
pub(crate) fn join_path(dir: &str, name: &str) -> (r: String)
    ensures
        plain_component(name@) ==> name@.is_suffix_of(r@),
        plain_component(name@) && simple_dir(dir@) ==> adjoined(dir@, name@, r@),
{
    std::path::Path::new(dir).join(name).to_string_lossy().into_owned()
}

/// Adjoining a plain component to a simple folder gives a simple folder.
pub proof fn lemma_adjoined_simple(dir: Seq<char>, name: Seq<char>, joined: Seq<char>)
    requires
        simple_dir(dir),
        plain_component(name),
        name.len() >= 2,
        adjoined(dir, name, joined),
    ensures
        simple_dir(joined),
{
    let k = joined.len() - name.len();
    assert forall|i: int| 0 <= i < joined.len() implies #[trigger] joined[i] != ':' by {
        if i < dir.len() {
            assert(joined[i] == dir[i]);
        } else if i >= k {
            assert(joined[i] == name[i - k]);
        } else {
            assert(i == dir.len());
        }
    }
    assert(joined[k] == name[0]);
    assert(joined[k + 1] == name[1]);
    if dir.len() >= 2 {
        assert(joined[0] == dir[0] && joined[1] == dir[1]);
    } else if dir.len() == 1 {
        assert(joined[0] == dir[0]);
        if is_sep(dir[0]) {
            assert(dir[0] == '/');
            assert(dir.last() == '/');
            assert(k == 1);
        }
    } else {
        assert(k <= 1);
    }
}

/// A name of lowercase letters, digits, underscores and dots, longer than `..`, is a plain
/// component.
proof fn lemma_word_plain(name: Seq<char>)
    requires
        name.len() > 2,
        forall|i: int| 0 <= i < name.len() ==> ('a' <= #[trigger] name[i] <= 'z') || ('0' <= name[i] <= '9')
            || name[i] == '_' || name[i] == '.',
    ensures
        plain_component(name),
{
    reveal_strlit(".");
    reveal_strlit("..");
    assert(name.len() != "."@.len());
    assert(name.len() != ".."@.len());
}

proof fn lemma_fixed_names_plain()
    ensures
        plain_component(APP_DIR@),
        APP_DIR@.len() > 2,
        plain_component(DB_FILE@),
        plain_component(WORKBENCH_DIR@),
        plain_component(INPUT_DATA_DIR@),
{
    reveal_strlit("islandora_workbench_gui");
    reveal_strlit("settings.sqlite3");
    reveal_strlit("islandora_workbench");
    reveal_strlit("input_data");
    lemma_word_plain(APP_DIR@);
    lemma_word_plain(DB_FILE@);
    lemma_word_plain(WORKBENCH_DIR@);
    lemma_word_plain(INPUT_DATA_DIR@);
}

/// The folder, under the app's own folder, that Workbench is downloaded into.
pub const WORKBENCH_DIR: &'static str = "islandora_workbench";

/// The folder, under the Workbench folder, that a run's input files go to.
pub const INPUT_DATA_DIR: &'static str = "input_data";

/// Whether `path` is `name` adjoined to the app's own folder, itself adjoined to `base`.
pub open spec fn in_app_dir(base: Seq<char>, name: Seq<char>, path: Seq<char>) -> bool {
    exists|d: Seq<char>| #[trigger] adjoined(base, APP_DIR@, d) && adjoined(d, name, path)
}

/// The app's own folder under the local data folder `base`; none without one.
pub fn data_dir_in(base: Option<String>) -> (r: Option<String>)
    ensures
        base is None <==> r is None,
        base matches Some(b) ==> r matches Some(d) && APP_DIR@.is_suffix_of(d@) && (simple_dir(b@)
            ==> adjoined(b@, APP_DIR@, d@)),
{
    proof {
        lemma_fixed_names_plain();
    }
    match base {
        Some(b) => Some(join_path(b.as_str(), APP_DIR)),
        None => None,
    }
}

/// The app's own folder under the OS's local data folder; none when the OS reports no such
/// folder.
pub fn data_dir() -> (r: Option<String>)
    ensures
        r matches Some(d) ==> APP_DIR@.is_suffix_of(d@),
{
    data_dir_in(local_data_dir())
}

/// Where the settings database lives under the local data folder `base`: `settings.sqlite3`
/// in the app's folder there, or the error that there is no local data folder.
pub fn db_path_in(base: Option<String>) -> (r: Result<String, String>)
    ensures
        base is None <==> r is Err,
        r matches Err(e) ==> e@ == "Failed to resolve local data dir"@,
        base matches Some(b) ==> r matches Ok(p) && DB_FILE@.is_suffix_of(p@) && (simple_dir(b@)
            ==> in_app_dir(b@, DB_FILE@, p@)),
{
    proof {
        lemma_fixed_names_plain();
    }
    match base {
        Some(b) => {
            let dir = join_path(b.as_str(), APP_DIR);
            let p = join_path(dir.as_str(), DB_FILE);
            proof {
                if simple_dir(b@) {
                    lemma_adjoined_simple(b@, APP_DIR@, dir@);
                    assert(adjoined(b@, APP_DIR@, dir@) && adjoined(dir@, DB_FILE@, p@));
                    assert(in_app_dir(b@, DB_FILE@, p@));
                }
            }
            Ok(p)
        },
        None => Err(owned("Failed to resolve local data dir")),
    }
}

/// Where the settings database lives: `settings.sqlite3` in the app's folder, or the error
/// that no local data folder exists.
pub fn db_path() -> (r: Result<String, String>)
    ensures
        r matches Err(e) ==> e@ == "Failed to resolve local data dir"@,
        r matches Ok(p) ==> DB_FILE@.is_suffix_of(p@),
{
    db_path_in(local_data_dir())
}

/// The folder Workbench is downloaded into under the local data folder `base`:
/// `islandora_workbench` in the app's folder there; none without a local data folder.
pub fn per_user_workbench_dir_in(base: Option<String>) -> (r: Option<String>)
    ensures
        base is None <==> r is None,
        base matches Some(b) ==> r matches Some(w) && WORKBENCH_DIR@.is_suffix_of(w@) && (
        simple_dir(b@) ==> in_app_dir(b@, WORKBENCH_DIR@, w@)),
{
    proof {
        lemma_fixed_names_plain();
    }
    match base {
        Some(b) => {
            let app = join_path(b.as_str(), APP_DIR);
            let w = join_path(app.as_str(), WORKBENCH_DIR);
            proof {
                if simple_dir(b@) {
                    lemma_adjoined_simple(b@, APP_DIR@, app@);
                    assert(adjoined(b@, APP_DIR@, app@) && adjoined(app@, WORKBENCH_DIR@, w@));
                    assert(in_app_dir(b@, WORKBENCH_DIR@, w@));
                }
            }
            Some(w)
        },
        None => None,
    }
}

/// The per-user folder the app downloads Workbench into.
pub fn per_user_workbench_dir() -> (r: Option<String>)
    ensures
        r matches Some(d) ==> WORKBENCH_DIR@.is_suffix_of(d@),
{
    per_user_workbench_dir_in(local_data_dir())
}

/// `{workbench}/input_data`, from the Workbench folder setting; none when that is unset or
/// blank.
pub fn workbench_input_data_dir(settings: &AppSettings) -> (r: Option<String>)
    ensures
        r is Some <==> path_setting(settings@.values, "workbench_path"@) is Some,
        path_setting(settings@.values, "workbench_path"@) matches Some(w) ==> r matches Some(d)
            && INPUT_DATA_DIR@.is_suffix_of(d@) && (simple_dir(w) ==> adjoined(w, INPUT_DATA_DIR@, d@)),
{
    proof {
        lemma_fixed_names_plain();
    }
    match settings.path_setting("workbench_path") {
        Some(p) => Some(join_path(p.as_str(), INPUT_DATA_DIR)),
        None => None,
    }
}

/// The operating systems the app runs on.
#[derive(Clone, Copy, PartialEq, Eq, Structural, Debug)]
pub enum TargetOs {
    Windows,
    MacOs,
    Linux,
}

/// A program to start: its name, its arguments and, when set, the folder it starts in.
pub struct Command {
    pub program: String,
    pub args: Vec<String>,
    pub current_dir: Option<String>,
}

/// What a [`Command`] holds.
pub struct CommandView {
    pub program: Seq<char>,
    pub args: Seq<Seq<char>>,
    pub current_dir: Option<Seq<char>>,
}

impl View for Command {
    type V = CommandView;

    open spec fn view(&self) -> CommandView {
        CommandView {
            program: self.program@,
            args: self.args@.map_values(|a: String| a@),
            current_dir: opt_text(self.current_dir),
        }
    }
}

fn texts_of(parts: Vec<&str>) -> (r: Vec<String>)
    ensures
        r@.map_values(|a: String| a@) == parts@.map_values(|p: &str| p@),
{
    let mut r: Vec<String> = Vec::new();
    let mut i: usize = 0;
    while i < parts.len()
        invariant
            i <= parts@.len(),
            r@.len() == i,
            forall|k: int| 0 <= k < i ==> (#[trigger] r@[k])@ == parts@[k]@,
        decreases parts@.len() - i,
    {
        r.push(owned(parts[i]));
        i = i + 1;
    }
    assert(r@.map_values(|a: String| a@) =~= parts@.map_values(|p: &str| p@));
    r
}

/// The views of a list of commands.
pub open spec fn commands_view(cs: Seq<Command>) -> Seq<CommandView> {
    cs.map_values(|c: Command| c@)
}

/// The AppleScript that opens a new iTerm window in the folder `cwd`.
pub open spec fn iterm_window_script(cwd: Seq<char>) -> Seq<char> {
    "tell application \"iTerm\" to create window with default profile command \"cd \\\""@
        + spec_escape_applescript(cwd) + "\\\"\" "@
}

/// The AppleScript that runs `command` in the folder `cwd` in `app`'s terminal.
pub open spec fn do_script(app: Seq<char>, cwd: Seq<char>, command: Seq<char>) -> Seq<char> {
    "tell application \""@ + app + "\" to do script \""@ + spec_escape_applescript(
        "cd \""@ + cwd + "\" && "@ + command,
    ) + "\""@
}

/// The ways to open a terminal in the folder `cwd`, to be tried in order until one starts,
/// running `command` there when it is not blank. `term_program` is `$TERM_PROGRAM` (macOS
/// opens iTerm when that is `iTerm.app`).
pub open spec fn spec_terminal_commands(
    os: TargetOs,
    cwd: Seq<char>,
    command: Seq<char>,
    term_program: Seq<char>,
) -> Seq<CommandView> {
    let run = !crate::text::is_blank(command);
    match os {
        TargetOs::Windows => seq![
            CommandView {
                program: "wt"@,
                args: seq!["--startingDirectory"@, cwd] + if run {
                    seq!["cmd"@, "/k"@, command]
                } else {
                    Seq::empty()
                },
                current_dir: None,
            },
            CommandView {
                program: "cmd"@,
                args: seq!["/C"@, "start"@, ""@, "/d"@, cwd, "cmd"@] + if run {
                    seq!["/k"@, command]
                } else {
                    Seq::empty()
                },
                current_dir: None,
            },
        ],
        TargetOs::MacOs => {
            let iterm = term_program == "iTerm.app"@;
            if !run {
                if iterm {
                    seq![CommandView { program: "osascript"@, args: seq!["-e"@, iterm_window_script(cwd)], current_dir: None }]
                } else {
                    seq![CommandView { program: "open"@, args: seq!["-a"@, "Terminal"@, cwd], current_dir: None }]
                }
            } else {
                let app = if iterm {
                    "iTerm"@
                } else {
                    "Terminal"@
                };
                seq![CommandView { program: "osascript"@, args: seq!["-e"@, do_script(app, cwd, command)], current_dir: None }]
            }
        },
        TargetOs::Linux => seq![
            CommandView {
                program: "x-terminal-emulator"@,
                args: if run {
                    seq!["-e"@, "sh"@, "-lc"@, command + "; exec \"${SHELL:-sh}\""@]
                } else {
                    Seq::empty()
                },
                current_dir: Some(cwd),
            },
        ],
    }
}

/// The ways to open a terminal in `cwd` running `command`, to be tried in order.
pub fn terminal_commands(os: TargetOs, cwd: &str, command: &str, term_program: &str) -> (r: Vec<
    Command,
>)
    ensures
        commands_view(r@) == spec_terminal_commands(os, cwd@, command@, term_program@),
{
    let run = !crate::text::is_blank_str(command);
    let ghost spec = spec_terminal_commands(os, cwd@, command@, term_program@);
    let mut r: Vec<Command> = Vec::new();
    match os {
        TargetOs::Windows => {
            let mut wt = vec!["--startingDirectory", cwd];
            if run {
                wt.push("cmd");
                wt.push("/k");
                wt.push(command);
            }
            let a = command_with(owned("wt"), wt, None);
            assert(a@.args =~= spec[0].args);
            r.push(a);
            let mut cmd = vec!["/C", "start", "", "/d", cwd, "cmd"];
            if run {
                cmd.push("/k");
                cmd.push(command);
            }
            let b = command_with(owned("cmd"), cmd, None);
            assert(b@.args =~= spec[1].args);
            r.push(b);
        },
        TargetOs::MacOs => {
            let iterm = text_equal(&owned(term_program), &owned("iTerm.app"));
            if !run {
                if iterm {
                    let mut osa = owned(
                        "tell application \"iTerm\" to create window with default profile command \"cd \\\"",
                    );
                    crate::text::push_str(&mut osa, escape_applescript(cwd).as_str());
                    crate::text::push_str(&mut osa, "\\\"\" ");
                    let a = command_with(owned("osascript"), vec!["-e", osa.as_str()], None);
                    assert(a@.args =~= spec[0].args);
                    r.push(a);
                } else {
                    let a = command_with(owned("open"), vec!["-a", "Terminal", cwd], None);
                    assert(a@.args =~= spec[0].args);
                    r.push(a);
                }
            } else {
                let mut script = owned("cd \"");
                crate::text::push_str(&mut script, cwd);
                crate::text::push_str(&mut script, "\" && ");
                crate::text::push_str(&mut script, command);
                let mut osa = owned("tell application \"");
                crate::text::push_str(&mut osa, if iterm { "iTerm" } else { "Terminal" });
                crate::text::push_str(&mut osa, "\" to do script \"");
                crate::text::push_str(&mut osa, escape_applescript(script.as_str()).as_str());
                crate::text::push_str(&mut osa, "\"");
                let a = command_with(owned("osascript"), vec!["-e", osa.as_str()], None);
                assert(a@.args =~= spec[0].args);
                r.push(a);
            }
        },
        TargetOs::Linux => {
            let mut tail = owned(command);
            crate::text::push_str(&mut tail, "; exec \"${SHELL:-sh}\"");
            let args = if run {
                vec!["-e", "sh", "-lc", tail.as_str()]
            } else {
                Vec::new()
            };
            let a = command_with(owned("x-terminal-emulator"), args, Some(cwd));
            assert(a@.args =~= spec[0].args);
            r.push(a);
        },
    }
    assert(commands_view(r@) =~= spec);
    r
}

fn command_with(program: String, args: Vec<&str>, current_dir: Option<&str>) -> (r: Command)
    ensures
        r@ == (CommandView {
            program: program@,
            args: args@.map_values(|p: &str| p@),
            current_dir: match current_dir {
                Some(d) => Some(d@),
                None => None,
            },
        }),
{
    Command {
        program,
        args: texts_of(args),
        current_dir: match current_dir {
            Some(d) => Some(owned(d)),
            None => None,
        },
    }
}

/// The error when the terminal's folder is not a directory.
pub fn not_a_directory_error(cwd: &str) -> (r: String)
    ensures
        r@ == "spawn_terminal_at expects a directory: "@ + cwd@,
{
    let mut r = owned("spawn_terminal_at expects a directory: ");
    crate::text::push_str(&mut r, cwd);
    r
}

/// How the file manager is asked to show `path`: Windows selects it in its folder, macOS
/// reveals it in Finder, Linux opens the folder (the path itself when it is a folder, else its
/// parent, else the path).
pub open spec fn spec_reveal_command(
    os: TargetOs,
    path: Seq<char>,
    is_dir: bool,
    parent: Option<Seq<char>>,
) -> CommandView {
    match os {
        TargetOs::Windows => CommandView { program: "explorer"@, args: seq!["/select,"@ + path], current_dir: None },
        TargetOs::MacOs => CommandView { program: "open"@, args: seq!["-R"@, path], current_dir: None },
        TargetOs::Linux => CommandView {
            program: "xdg-open"@,
            args: seq![if is_dir {
                path
            } else {
                match parent {
                    Some(p) => p,
                    None => path,
                }
            }],
            current_dir: None,
        },
    }
}

/// How the file manager is asked to show `path`.
pub fn reveal_command(os: TargetOs, path: &str, is_dir: bool, parent: Option<&str>) -> (r: Command)
    ensures
        r@ == spec_reveal_command(
            os,
            path@,
            is_dir,
            match parent {
                Some(p) => Some(p@),
                None => None,
            },
        ),
{
    match os {
        TargetOs::Windows => {
            let mut arg = owned("/select,");
            crate::text::push_str(&mut arg, path);
            let r = command_with(owned("explorer"), vec![arg.as_str()], None);
            assert(r@.args.len() == 1);
            assert(r@.args[0] == arg@);
            assert(r@.args =~= seq!["/select,"@ + path@]);
            r
        },
        TargetOs::MacOs => {
            let r = command_with(owned("open"), vec!["-R", path], None);
            assert(r@.args =~= seq!["-R"@, path@]);
            r
        },
        TargetOs::Linux => {
            let folder = if is_dir {
                path
            } else {
                match parent {
                    Some(p) => p,
                    None => path,
                }
            };
            let r = command_with(owned("xdg-open"), vec![folder], None);
            assert(r@.args =~= seq![folder@]);
            r
        },
    }
}

/// The error when a path to reveal does not exist.
pub fn missing_path_error(path: &str) -> (r: String)
    ensures
        r@ == "path does not exist: "@ + path@,
{
    let mut r = owned("path does not exist: ");
    crate::text::push_str(&mut r, path);
    r
}

/// Whether the installer's `ProvisionWorkbench` registry value asks for a download.
pub fn provision_requested(value: Option<&str>) -> (r: bool)
    ensures
        r == (value matches Some(v) && v@ == "1"@),
{
    match value {
        Some(v) => text_equal(&owned(v), &owned("1")),
        None => false,
    }
}

} // verus!
