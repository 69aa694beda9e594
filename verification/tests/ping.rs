use workbench_gui::ping::{
    basic_auth_header, basic_header, ping_log_message, ping_outcome, ping_url, PingResponse,
    PingTracker, ServerPingState,
};
use workbench_gui::settings::{AppSettings, ServerConfig};

#[test]
fn the_version_endpoint_is_under_the_server_url_without_trailing_slashes() {
    assert_eq!(ping_url("https://host"), "https://host/islandora_workbench_integration/version");
    assert_eq!(ping_url("https://host//"), "https://host/islandora_workbench_integration/version");
}

#[test]
fn credentials_go_as_basic_authentication() {
    assert_eq!(basic_auth_header("admin", "secret"), "Basic YWRtaW46c2VjcmV0");
    assert_eq!(basic_auth_header("", ""), "Basic Og==");
    assert_eq!(basic_header("abc"), "Basic abc");
}

#[test]
fn an_answer_reads_as_reachable_and_an_error_or_silence_as_unreachable() {
    assert_eq!(ping_outcome(&PingResponse::Answered(200)), ServerPingState::Reachable(200));
    assert_eq!(ping_outcome(&PingResponse::ErrorStatus(401)), ServerPingState::Unreachable(Some(401)));
    assert_eq!(ping_outcome(&PingResponse::NoAnswer), ServerPingState::Unreachable(None));
    assert_eq!(ServerPingState::Reachable(200).label(), "Reachable 200");
    assert_eq!(ServerPingState::Unreachable(Some(500)).label(), "Unreachable 500");
    assert_eq!(ServerPingState::Unreachable(None).label(), "Unreachable");
    assert_eq!(ServerPingState::Pinging.label(), "Pinging");
    assert_eq!(ServerPingState::NotSet.label(), "Not Set");
}

#[test]
fn a_failed_check_logs_why() {
    let u = "https://host";
    assert_eq!(
        ping_log_message(u, ServerPingState::Unreachable(Some(401))).as_deref(),
        Some("[Server] https://host: Unauthorized (401) — check credentials file")
    );
    assert_eq!(
        ping_log_message(u, ServerPingState::Unreachable(Some(403))).as_deref(),
        Some("[Server] https://host: Forbidden (403) — user lacks permissions")
    );
    assert_eq!(
        ping_log_message(u, ServerPingState::Unreachable(Some(502))).as_deref(),
        Some("[Server] https://host: Error response (HTTP 502)")
    );
    assert_eq!(
        ping_log_message(u, ServerPingState::Unreachable(None)).as_deref(),
        Some("[Server] https://host: Connection failed")
    );
    assert_eq!(ping_log_message(u, ServerPingState::Reachable(200)), None);
}

#[test]
fn the_tracker_checks_a_new_server_once_and_ignores_clicks_while_busy() {
    let (mut t, ping) = PingTracker::new(None);
    assert!(!ping);
    assert!(!t.on_default_server(None));
    assert!(t.on_default_server(Some("https://a".to_string())));
    assert!(!t.on_default_server(Some("https://a".to_string())), "the same server is not checked again");
    assert!(t.begin());
    assert!(!t.begin());
    t.finish(ServerPingState::Reachable(200));
    assert_eq!(t.state, ServerPingState::Reachable(200));
    assert!(!t.on_default_server(None));
    assert_eq!(t.state, ServerPingState::NotSet);
    let (_, ping) = PingTracker::new(Some("https://b".to_string()));
    assert!(ping);
}

#[test]
fn a_check_sends_the_first_matching_servers_credentials_unless_empty() {
    let mut s = AppSettings::default();
    s.upsert_server_config(None, ServerConfig {
        label: "A".to_string(),
        server_url: "https://a".to_string(),
        credentials_file: String::new(),
        needs_confirmation: false,
        last_check: None,
    });
    s.upsert_server_config(None, ServerConfig {
        label: "B".to_string(),
        server_url: "https://b".to_string(),
        credentials_file: "/b.yml".to_string(),
        needs_confirmation: false,
        last_check: None,
    });
    assert_eq!(s.ping_credentials_file("https://a"), None);
    assert_eq!(s.ping_credentials_file("https://b"), Some("/b.yml".to_string()));
    assert_eq!(s.ping_credentials_file("https://c"), None);
}
