use workbench_gui::catalog::{Browse, SettingDef, Shape};
use workbench_gui::search::{
    group_by_section, next_selectable_key, rank, result_child_index, shape_glyph,
    visible_result_keys,
};
use workbench_gui::yaml::YamlValue;

/// A setting with no default and no choices; only the fields ranking reads vary.
fn def(key: &str, group: &str, description: &str) -> SettingDef {
    SettingDef {
        key: key.to_string(),
        group: group.to_string(),
        description: description.to_string(),
        shape: Shape::String,
        default: YamlValue::Null,
        required: false,
        locked: false,
        choices: Vec::new(),
        unit: None,
        tokens: Vec::new(),
        browse: Browse::default_browse(),
    }
}

#[test]
fn a_prefix_of_the_key_outranks_a_mention_anywhere_else() {
    let prefix = def("rollback_dir", "Rollback", "");
    let inside = def("timestamp_rollback", "Rollback", "");
    let prose = def("log_file_path", "Logging", "Written before the rollback runs.");
    let unrelated = def("user_agent", "HTTP", "Sent with every request.");

    assert_eq!(rank(&prefix, "roll"), Some(0));
    assert_eq!(rank(&inside, "roll"), Some(1));
    assert_eq!(rank(&prose, "roll"), Some(2));
    assert_eq!(rank(&unrelated, "roll"), None);
}

#[test]
fn an_empty_query_matches_everything_at_one_rank() {
    assert_eq!(rank(&def("user_agent", "HTTP", ""), ""), Some(2));
    assert_eq!(rank(&def("rollback_dir", "Rollback", ""), ""), Some(2));
}

#[test]
fn groups_appear_in_the_order_their_best_match_did() {
    let a = def("rollback_dir", "Rollback", "");
    let b = def("log_file_path", "Logging", "");
    let c = def("timestamp_rollback", "Rollback", "");
    let groups = group_by_section(&[&a, &b, &c]);

    let names: Vec<&str> = groups.iter().map(|(name, _)| name.as_str()).collect();
    assert_eq!(names, ["Rollback", "Logging"]);
    assert_eq!(groups[0].1.len(), 2, "both Rollback settings land in one section");
    assert_eq!(groups[1].1.len(), 1);
}

#[test]
fn no_matches_means_no_sections_rather_than_one_empty_one() {
    assert!(group_by_section(&[]).is_empty());
}

#[test]
fn visible_keys_and_scroll_indices_follow_grouped_order() {
    let a = def("a", "First", "");
    let b = def("b", "Second", "");
    let c = def("c", "First", "");
    let matches = [&a, &b, &c];

    assert_eq!(
        visible_result_keys(&matches),
        vec!["a".to_string(), "c".to_string(), "b".to_string()]
    );
    // Header, a, c, header, b.
    assert_eq!(result_child_index(&matches, &"c".to_string()), Some(2));
    assert_eq!(result_child_index(&matches, &"b".to_string()), Some(4));
}

#[test]
fn keyboard_selection_wraps_and_skips_unavailable_rows() {
    let keys: Vec<String> = vec!["a".to_string(), "b".to_string(), "c".to_string()];
    let unavailable = |key: &String| key.as_str() == "b";

    assert_eq!(
        next_selectable_key(&keys, Some(&"a".to_string()), 1, unavailable),
        Some("c".to_string())
    );
    assert_eq!(
        next_selectable_key(&keys, Some(&"c".to_string()), 1, unavailable),
        Some("a".to_string())
    );
    assert_eq!(next_selectable_key(&keys, None, -1, unavailable), Some("c".to_string()));
    assert_eq!(next_selectable_key(&keys, None, 1, |_: &String| true), None);
}

#[test]
fn every_shape_family_has_a_compact_palette_glyph() {
    assert_eq!(shape_glyph(Shape::Boolean), "□");
    assert_eq!(shape_glyph(Shape::Integer), "12");
    assert_eq!(shape_glyph(Shape::FilePath), "/");
    assert_eq!(shape_glyph(Shape::TemplateString), "ab");
    assert_eq!(shape_glyph(Shape::ListOfStrings), "[]");
    assert_eq!(shape_glyph(Shape::Mapping), "{}");
}

#[test]
fn search_ranks_prefix_then_inside_then_prose_and_breaks_ties_by_key_length() {
    let long_prefix = def("rollback_directory", "Rollback", "");
    let short_prefix = def("rollback", "Rollback", "");
    let inside = def("timestamp_rollback", "Rollback", "");
    let prose = def("log_file_path", "Logging", "Written before the rollback runs.");
    let unrelated = def("user_agent", "HTTP", "");
    let all = vec![&prose, &unrelated, &inside, &long_prefix, &short_prefix];
    let found = workbench_gui::search::matches(&all, "  ROLL ");
    let keys: Vec<&str> = found.iter().map(|d| d.key.as_str()).collect();
    assert_eq!(keys, ["rollback", "rollback_directory", "timestamp_rollback", "log_file_path"]);
}

#[test]
fn an_empty_query_lists_everything_shortest_key_first_keeping_ties_in_order() {
    let b = def("bb", "G", "");
    let a = def("aa", "G", "");
    let c = def("c", "G", "");
    let all = vec![&b, &a, &c];
    let found = workbench_gui::search::matches(&all, "");
    let keys: Vec<&str> = found.iter().map(|d| d.key.as_str()).collect();
    assert_eq!(keys, ["c", "bb", "aa"]);
}

#[test]
fn a_group_in_the_description_or_the_section_name_counts_as_prose() {
    let in_group = def("host", "Rollback settings", "");
    assert_eq!(rank(&in_group, "rollback"), Some(2));
}
