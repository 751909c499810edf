use std::path::PathBuf;

use bd_watcher::bd::BdRunner;

#[test]
fn graph_args_for_all_and_for_one_epic() {
    let all = BdRunner::new(PathBuf::from("/repo"), None);
    assert_eq!(all.graph_args(), vec!["graph", "--all", "--json", "--readonly"]);
    assert_eq!(all.repo, PathBuf::from("/repo"));
    let one = BdRunner::new(PathBuf::from("/repo"), Some("sel3-42wn".to_string()));
    assert_eq!(one.graph_args(), vec!["graph", "sel3-42wn", "--json", "--readonly"]);
}
