use workbench_gui::select::DetailSelectItem;

#[test]
fn a_catalogue_choice_splits_into_a_value_and_a_description() {
    let item = DetailSelectItem::from_choice("create".to_string(), "create - Create new nodes");
    assert_eq!(item.label, "create");
    assert_eq!(item.subtitle, "Create new nodes");
    assert!(item.mono, "a YAML value is set in the mono family");
}

#[test]
fn a_label_that_is_not_prefixed_by_its_value_is_left_alone() {
    let item = DetailSelectItem::from_choice("md5".to_string(), "md5");
    assert_eq!(item.label, "md5");
    assert_eq!(item.subtitle, "");

    let item = DetailSelectItem::from_choice("update".to_string(), "update_media - Update media");
    assert_eq!(item.subtitle, "", "no false split on a prefix collision");
}

#[test]
fn prose_rows_and_code_rows_differ_only_in_the_font() {
    let prose = DetailSelectItem::new("v".to_string(), "Label".to_string());
    assert!(!prose.mono);
    assert_eq!(prose.subtitle, "");
    assert!(!prose.divider_above);
    let code = DetailSelectItem::code("v".to_string(), "Label".to_string());
    assert!(code.mono);
    assert_eq!(code.value, "v");
    let ruled = code.divider_above(true).subtitle("below".to_string());
    assert!(ruled.divider_above);
    assert_eq!(ruled.subtitle, "below");
}

#[test]
fn a_row_answers_a_search_in_its_label_or_subtitle_ignoring_case() {
    let item = DetailSelectItem::new("x".to_string(), "Google Sheet".to_string())
        .subtitle("Fetch a published sheet".to_string());
    assert!(item.matches("SHEET"));
    assert!(item.matches("published"));
    assert!(!item.matches("csv"));
    assert!(item.matches(""));
}

#[test]
fn a_label_not_in_the_value_dash_prose_form_is_shown_as_it_is() {
    let item = DetailSelectItem::from_choice("update".to_string(), "update_media - Update media");
    assert_eq!(item.label, "update_media - Update media");
    assert_eq!(item.subtitle, "");
    assert_eq!(item.value, "update");
    assert!(item.mono);
    assert!(!item.divider_above);
}
