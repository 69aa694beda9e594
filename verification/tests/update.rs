use workbench_gui::settings::{AppSettings, Val};
use workbench_gui::update::{accepts_integer_input, automatic_updates, is_newer, update_offer};

#[test]
fn only_a_later_release_counts_as_newer() {
    assert!(is_newer("0.2.0", "0.1.0"));
    assert!(is_newer("0.1.1", "0.1.0"));
    assert!(is_newer("1.0.0", "0.9.9"));

    assert!(!is_newer("0.1.0", "0.1.0"));
    assert!(!is_newer("0.1.0", "0.2.0"));
    assert!(!is_newer("0.9.9", "1.0.0"));
}

#[test]
fn a_prerelease_loses_to_the_release_of_the_same_version() {
    assert!(is_newer("0.1.0", "0.1.0-alpha.1"));
    assert!(!is_newer("0.1.0-alpha.1", "0.1.0"));
    assert!(is_newer("0.1.0-alpha.2", "0.1.0-alpha.1"));
    assert!(is_newer("0.1.0-alpha.10", "0.1.0-alpha.9"));
    assert!(!is_newer("0.1.0-alpha.1", "0.1.0-alpha.2"));
}

#[test]
fn a_malformed_version_never_prompts_an_upgrade() {
    assert!(!is_newer("not-a-version", "0.1.0"));
    assert!(!is_newer("", "0.1.0"));
}

#[test]
fn the_integer_pattern_accepts_a_number_being_typed_and_nothing_else() {
    for ok in ["", "0", "3", "255", "-", "-1"] {
        assert!(accepts_integer_input(ok), "{ok:?} should be accepted");
    }
    for bad in ["abc", "1.5", "1e3", "1 ", "--1", "1-"] {
        assert!(!accepts_integer_input(bad), "{bad:?} should be rejected");
    }
}

#[test]
fn the_integer_pattern_takes_digits_from_other_scripts() {
    // `\d` is Unicode-aware: Arabic-Indic digits are decimal digits.
    assert!(accepts_integer_input("-\u{0663}\u{0664}"));
}

#[test]
fn a_malformed_running_version_never_prompts_either() {
    assert!(!is_newer("0.2.0", "garbage"));
}

#[test]
fn an_offer_is_made_only_for_a_newer_release() {
    let offer = update_offer("0.3.0".to_string(), "https://example.org/notes".to_string(), "0.2.0");
    let offer = offer.expect("a newer release is offered");
    assert_eq!(offer.version, "0.3.0");
    assert_eq!(offer.release_notes_url, "https://example.org/notes");
    assert!(update_offer("0.2.0".to_string(), String::new(), "0.2.0").is_none());
}

#[test]
fn update_checks_are_on_until_switched_off() {
    let mut s = AppSettings::default();
    assert!(automatic_updates(&s));
    s.set_bool("automatic_updates", false);
    assert!(!automatic_updates(&s));
    s.set_text("automatic_updates", "true".to_string());
    assert!(automatic_updates(&s));
    assert!(matches!(s.values.get("automatic_updates"), Some(Val::Text(_))));
}
