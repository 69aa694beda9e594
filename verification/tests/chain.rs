use workbench_gui::chain::{
    chain_depth_warning, chain_stats, chain_summary, collect_paths, flattened_labels,
    link_task, node_metadata, unlinked_tasks, visible_chain_rows, ChainNode, CollapsedPaths,
};

fn node(path: &str, label: &str, children: Vec<ChainNode>) -> ChainNode {
    ChainNode {
        path: path.to_string(),
        label: label.to_string(),
        task: Some("create".to_string()),
        settings: 3,
        children,
        error: None,
    }
}

fn sample() -> Vec<ChainNode> {
    vec![
        node("/a.yml", "A", vec![node("/a1.yml", "A1", vec![node("/a11.yml", "A11", vec![])])]),
        ChainNode { error: Some("Couldn't read /b.yml".to_string()), ..node("/b.yml", "B", vec![node("/b1.yml", "B1", vec![])]) },
        node("/c.yml", "C", vec![]),
    ]
}

#[test]
fn the_chain_counts_every_config_and_its_deepest_level() {
    assert_eq!(chain_stats(&sample(), 1), (6, 3));
    assert_eq!(chain_stats(&Vec::new(), 1), (0, 0));
    assert_eq!(chain_stats(&Vec::new(), 0), (0, 0));
}

#[test]
fn the_run_order_is_depth_first_and_skips_unreadable_configs() {
    assert_eq!(flattened_labels(&sample()), vec!["A", "A1", "A11", "C"]);
}

#[test]
fn the_heading_pluralises_configs_and_levels() {
    assert_eq!(chain_summary(0, 0), "run after this config finishes");
    assert_eq!(chain_summary(1, 1), "1 config · 1 level");
    assert_eq!(chain_summary(6, 3), "6 configs · 3 levels");
    assert_eq!(chain_depth_warning(3), None);
    assert_eq!(
        chain_depth_warning(4).as_deref(),
        Some("This chain is 4 levels deep. Each level runs every config below it, so the run order is longer than it looks.")
    );
}

#[test]
fn a_row_describes_its_config_or_why_it_could_not_be_read() {
    let n = node("/a.yml", "A", vec![node("/x.yml", "X", vec![])]);
    assert_eq!(node_metadata(&n), "/a.yml · create · 3 settings · 1 child");
    let lone = ChainNode { task: None, settings: 1, ..node("/b.yml", "B", vec![]) };
    assert_eq!(node_metadata(&lone), "/b.yml · task not set · 1 setting");
    let two = node("/c.yml", "C", vec![node("/1", "1", vec![]), node("/2", "2", vec![])]);
    assert!(node_metadata(&two).ends_with("· 2 children"));
    let broken = ChainNode { error: Some("gone".to_string()), ..node("/d.yml", "D", vec![]) };
    assert_eq!(node_metadata(&broken), "gone");
}

#[test]
fn folded_configs_hide_their_own_chains_and_rows_are_numbered_by_place() {
    let chain = sample();
    let mut folded = CollapsedPaths::new();
    let rows = visible_chain_rows(&chain, &folded);
    let shown: Vec<(&str, usize)> = rows.iter().map(|r| (r.numbering.as_str(), r.depth)).collect();
    assert_eq!(shown, [("1", 0), ("1.1", 1), ("1.1.1", 2), ("2", 0), ("2.1", 1), ("3", 0)]);
    assert!(rows[3].error);
    assert!(rows[0].has_children && rows[0].open);

    folded.toggle("/a1.yml".to_string());
    let rows = visible_chain_rows(&chain, &folded);
    let shown: Vec<&str> = rows.iter().map(|r| r.numbering.as_str()).collect();
    assert_eq!(shown, ["1", "1.1", "2", "2.1", "3"]);
    assert!(!rows[1].open);

    folded.toggle("/a1.yml".to_string());
    assert!(!folded.contains("/a1.yml"), "a second toggle opens it again");

    collect_paths(&chain, &mut folded);
    for p in ["/a.yml", "/a1.yml", "/a11.yml", "/b.yml", "/b1.yml", "/c.yml"] {
        assert!(folded.contains(p));
    }
    let rows = visible_chain_rows(&chain, &folded);
    assert_eq!(rows.len(), 3, "collapse all leaves the top level");
    assert!(folded.remove("/c.yml"));
    assert!(!folded.remove("/c.yml"));
}

fn pairs(items: &[(&str, &str)]) -> Vec<(String, String)> {
    items.iter().map(|(a, b)| (a.to_string(), b.to_string())).collect()
}

#[test]
fn a_config_links_once_and_unlinks_by_the_file_it_resolves_to() {
    let tasks = pairs(&[("a.yml", "/c/a.yml"), ("../b.yml", "/b.yml")]);
    let linked = link_task(&tasks, "d.yml".to_string(), "/c/d.yml").unwrap();
    assert_eq!(linked, vec!["a.yml", "../b.yml", "d.yml"]);
    assert_eq!(
        link_task(&tasks, "/b.yml".to_string(), "/b.yml"),
        Err("That config already runs in this chain.".to_string())
    );
    assert_eq!(unlinked_tasks(&tasks, "/b.yml"), vec!["a.yml"]);
    assert_eq!(unlinked_tasks(&tasks, "/nowhere.yml"), vec!["a.yml", "../b.yml"]);
    let mut relinked = tasks.clone();
    relinked.push(("d.yml".to_string(), "/c/d.yml".to_string()));
    assert_eq!(unlinked_tasks(&relinked, "/c/d.yml"), vec!["a.yml", "../b.yml"]);
    assert!(unlinked_tasks(&Vec::new(), "/x").is_empty());
}
