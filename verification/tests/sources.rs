//! The choice of source directories from the targets of `cargo metadata`.

use cargo_crappy::complexity::{
    choose_source_dirs, entry_action, source_dir_candidates, EntryAction, MetaTarget,
};

fn target(kinds: &[&str], src_path: &str) -> MetaTarget {
    MetaTarget {
        kind: kinds.iter().map(|k| (*k).to_string()).collect(),
        src_path: src_path.to_string(),
    }
}

#[test]
fn candidates_are_dirs_of_lib_and_bin_targets() {
    let targets = vec![
        target(&["lib"], "/p/src/lib.rs"),
        target(&["test"], "/p/tests/it.rs"),
        target(&["bin"], "/p/src/main.rs"),
        target(&["example"], "/p/examples/e.rs"),
        target(&["cdylib", "lib"], "/p/crates/b/src/lib.rs"),
    ];
    assert_eq!(
        source_dir_candidates(&targets),
        vec!["/p/src", "/p/src", "/p/crates/b/src"]
    );
}

#[test]
fn chosen_dirs_exist_and_repeat_once() {
    let cands = vec!["/p/src".to_string(), "/p/gone".to_string(), "/p/src".to_string(), "/p/b".to_string()];
    let exists = vec![true, false, true, true];
    assert_eq!(choose_source_dirs(&cands, &exists, "/p/src"), vec!["/p/src", "/p/b"]);
}

#[test]
fn fallback_when_no_candidate_exists() {
    let cands = vec!["/p/gone".to_string()];
    assert_eq!(choose_source_dirs(&cands, &vec![false], "/p/src"), vec!["/p/src"]);
    assert_eq!(choose_source_dirs(&Vec::new(), &Vec::new(), "/q/src"), vec!["/q/src"]);
}

#[test]
fn chosen_dirs_repeat_once_as_paths() {
    let cands = vec!["/p/src".to_string(), "/p/src/".to_string(), "/p//src".to_string()];
    assert_eq!(choose_source_dirs(&cands, &vec![true, true, true], "/p/src"), vec!["/p/src"]);
}

#[test]
fn search_descends_into_dirs_and_collects_rust_files() {
    assert_eq!(entry_action(true, "src", None), EntryAction::Descend);
    assert_eq!(entry_action(true, "target", None), EntryAction::Skip);
    assert_eq!(entry_action(true, ".git", None), EntryAction::Skip);
    assert_eq!(entry_action(true, "lib.rs", Some("rs")), EntryAction::Descend);
    assert_eq!(entry_action(false, "lib.rs", Some("rs")), EntryAction::Collect);
    assert_eq!(entry_action(false, "notes.txt", Some("txt")), EntryAction::Skip);
    assert_eq!(entry_action(false, "target", None), EntryAction::Skip);
}
