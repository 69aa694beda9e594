//! The status bar's server check: which URL it asks, with which credentials, what the answer
//! means, and when it asks again.
use vstd::prelude::*;
use crate::settings::{AppSettings, AppSettingsView, ServerConfigView, opt_text};
use crate::text::{decimal, owned, push_str, u64_to_text};
use crate::workflow::first_server_with_url;
use crate::yaml::text_equal;

verus! {

/// What the last check of the default server found.
#[derive(Clone, Copy, PartialEq, Eq, Structural, Debug)]
pub enum ServerPingState {
    /// No default server is chosen.
    NotSet,
    /// The server answered with this status.
    Reachable(u16),
    /// The server answered with this error status, or did not answer.
    Unreachable(Option<u16>),
    /// A check is under way.
    Pinging,
}

/// The text with every trailing `/` removed.
pub open spec fn without_trailing_slashes(s: Seq<char>) -> Seq<char>
    decreases s.len(),
{
    if s.len() > 0 && s.last() == '/' {
        without_trailing_slashes(s.drop_last())
    } else {
        s
    }
}

/// The version endpoint of Workbench's Drupal integration module on the server at `url`.
pub fn ping_url(url: &str) -> (r: String)
    ensures
        r@ == without_trailing_slashes(url@) + "/islandora_workbench_integration/version"@,
{
    let cs = crate::text::chars_of(url);
    let mut end = cs.len();
    assert(cs@.subrange(0, cs@.len() as int) =~= cs@);
    while end > 0 && cs[end - 1] == '/'
        invariant
            end <= cs@.len(),
            without_trailing_slashes(cs@.subrange(0, end as int)) == without_trailing_slashes(cs@),
        decreases end,
    {
        let ghost p = cs@.subrange(0, end as int);
        assert(p.drop_last() =~= cs@.subrange(0, end - 1));
        end = end - 1;
    }
    proof {
        assert(cs@.subrange(0, cs@.len() as int) =~= cs@);
    }
    let base = crate::text::chars_before(&cs, end);
    let mut r = crate::text::string_from_chars(base.as_slice());
    push_str(&mut r, "/islandora_workbench_integration/version");
    r
}

/// The text the `base64` crate's standard engine (alphabet `A–Z a–z 0–9 + /`, `=` padding)
/// writes for `bytes`.
pub uninterp spec fn base64_standard_text(bytes: Seq<u8>) -> Seq<char>;

/// `base64::engine::general_purpose::STANDARD.encode` (base64).
#[verifier::external_body]
fn base64_standard(bytes: &[u8]) -> (r: String)
    ensures
        r@ == base64_standard_text(bytes@),
{
    base64::Engine::encode(&base64::engine::general_purpose::STANDARD, bytes)
}

/// The `Authorization` header value for an encoded `user:password` token.
pub fn basic_header(token: &str) -> (r: String)
    ensures
        r@ == "Basic "@ + token@,
{
    let mut r = owned("Basic ");
    push_str(&mut r, token);
    r
}

/// The `Authorization` header value that sends `username` and `password` by basic
/// authentication: `Basic ` and the base64 of `username:password` in UTF-8.
pub fn basic_auth_header(username: &str, password: &str) -> (r: String)
    ensures
        r@ == "Basic "@ + base64_standard_text(
            vstd::utf8::encode_utf8(username@ + ":"@ + password@),
        ),
{
    let mut pair = owned(username);
    push_str(&mut pair, ":");
    push_str(&mut pair, password);
    let token = base64_standard(pair.as_str().as_bytes());
    basic_header(token.as_str())
}

/// How an HTTP request ended.
pub enum PingResponse {
    /// An answer with a success status.
    Answered(u16),
    /// An answer with an error status.
    ErrorStatus(u16),
    /// No answer: the connection or the request failed.
    NoAnswer,
}

/// What a response says of the server.
pub fn ping_outcome(response: &PingResponse) -> (r: ServerPingState)
    ensures
        match *response {
            PingResponse::Answered(c) => r == ServerPingState::Reachable(c),
            PingResponse::ErrorStatus(c) => r == ServerPingState::Unreachable(Some(c)),
            PingResponse::NoAnswer => r == ServerPingState::Unreachable(None),
        },
{
    match response {
        PingResponse::Answered(c) => ServerPingState::Reachable(*c),
        PingResponse::ErrorStatus(c) => ServerPingState::Unreachable(Some(*c)),
        PingResponse::NoAnswer => ServerPingState::Unreachable(None),
    }
}

/// The line a failed check logs.
pub open spec fn spec_ping_log_message(url: Seq<char>, state: ServerPingState) -> Option<Seq<char>> {
    match state {
        ServerPingState::Unreachable(Some(c)) => if c == 401 {
            Some("[Server] "@ + url + ": Unauthorized (401) \u{2014} check credentials file"@)
        } else if c == 403 {
            Some("[Server] "@ + url + ": Forbidden (403) \u{2014} user lacks permissions"@)
        } else {
            Some("[Server] "@ + url + ": Error response (HTTP "@ + decimal(c as nat) + ")"@)
        },
        ServerPingState::Unreachable(None) => Some("[Server] "@ + url + ": Connection failed"@),
        _ => None,
    }
}

/// The line a failed check logs; nothing for a check that reached the server.
pub fn ping_log_message(url: &str, state: ServerPingState) -> (r: Option<String>)
    ensures
        opt_text(r) == spec_ping_log_message(url@, state),
{
    let mut m = owned("[Server] ");
    push_str(&mut m, url);
    match state {
        ServerPingState::Unreachable(Some(c)) => {
            if c == 401 {
                push_str(&mut m, ": Unauthorized (401) \u{2014} check credentials file");
            } else if c == 403 {
                push_str(&mut m, ": Forbidden (403) \u{2014} user lacks permissions");
            } else {
                push_str(&mut m, ": Error response (HTTP ");
                push_str(&mut m, u64_to_text(c as u64).as_str());
                push_str(&mut m, ")");
            }
            Some(m)
        },
        ServerPingState::Unreachable(None) => {
            push_str(&mut m, ": Connection failed");
            Some(m)
        },
        _ => None,
    }
}

impl ServerPingState {
    /// What the status bar button says.
    pub fn label(&self) -> (r: String)
        ensures
            r@ == match *self {
                ServerPingState::Reachable(c) => "Reachable "@ + decimal(c as nat),
                ServerPingState::Unreachable(Some(c)) => "Unreachable "@ + decimal(c as nat),
                ServerPingState::Unreachable(None) => "Unreachable"@,
                ServerPingState::Pinging => "Pinging"@,
                ServerPingState::NotSet => "Not Set"@,
            },
    {
        match self {
            ServerPingState::Reachable(c) => {
                let mut r = owned("Reachable ");
                push_str(&mut r, u64_to_text(*c as u64).as_str());
                r
            },
            ServerPingState::Unreachable(Some(c)) => {
                let mut r = owned("Unreachable ");
                push_str(&mut r, u64_to_text(*c as u64).as_str());
                r
            },
            ServerPingState::Unreachable(None) => owned("Unreachable"),
            ServerPingState::Pinging => owned("Pinging"),
            ServerPingState::NotSet => owned("Not Set"),
        }
    }
}

impl AppSettings {
    /// The credentials file a check of the server at `url` sends: that of the first server at
    /// `url`, unless it is empty.
    pub fn ping_credentials_file(&self, url: &str) -> (r: Option<String>)
        ensures
            opt_text(r) == match first_server_with_url(self@.server_configs, url@) {
                Some(i) => if self@.server_configs[i].credentials_file.len() > 0 {
                    Some(self@.server_configs[i].credentials_file)
                } else {
                    None
                },
                None => None,
            },
    {
        let f = self.credentials_file_for(url);
        if f.unicode_len() == 0 {
            None
        } else {
            Some(f)
        }
    }
}

/// The status bar's server check: what it last found and which server it is about.
pub struct PingTracker {
    pub state: ServerPingState,
    pub last_server_url: Option<String>,
}

impl PingTracker {
    /// The tracker for a window opened with `default_server` chosen; a chosen server is checked
    /// at once (`true`).
    pub fn new(default_server: Option<String>) -> (r: (PingTracker, bool))
        ensures
            r.0.state == ServerPingState::NotSet,
            opt_text(r.0.last_server_url) == opt_text(default_server),
            r.1 == default_server is Some,
    {
        let ping = default_server.is_some();
        (PingTracker { state: ServerPingState::NotSet, last_server_url: default_server }, ping)
    }

    /// The settings changed: a different default server is checked (`true`), no server at all
    /// clears the state; the same server is left alone.
    pub fn on_default_server(&mut self, server: Option<String>) -> (ping: bool)
        ensures
            opt_text(server) == opt_text(old(self).last_server_url) ==> !ping && final(self).state
                == old(self).state && opt_text(final(self).last_server_url) == opt_text(
                old(self).last_server_url,
            ),
            opt_text(server) != opt_text(old(self).last_server_url) ==> {
                &&& opt_text(final(self).last_server_url) == opt_text(server)
                &&& ping == server is Some
                &&& server is None ==> final(self).state == ServerPingState::NotSet
                &&& server is Some ==> final(self).state == old(self).state
            },
    {
        let same = match (&server, &self.last_server_url) {
            (Some(a), Some(b)) => text_equal(a, b),
            (None, None) => true,
            _ => false,
        };
        if same {
            return false;
        }
        let none = server.is_none();
        self.last_server_url = server;
        if none {
            self.state = ServerPingState::NotSet;
            return false;
        }
        true
    }

    /// A check starts (the button was pressed, or the server changed): ignored while one runs.
    pub fn begin(&mut self) -> (started: bool)
        ensures
            started == (old(self).state != ServerPingState::Pinging),
            started ==> final(self).state == ServerPingState::Pinging,
            !started ==> final(self).state == old(self).state,
            opt_text(final(self).last_server_url) == opt_text(old(self).last_server_url),
    {
        if self.state == ServerPingState::Pinging {
            return false;
        }
        self.state = ServerPingState::Pinging;
        true
    }

    /// A check ended with `outcome`.
    pub fn finish(&mut self, outcome: ServerPingState)
        ensures
            final(self).state == outcome,
            opt_text(final(self).last_server_url) == opt_text(old(self).last_server_url),
    {
        self.state = outcome;
    }
}

} // verus!
