use littlebook::env_vars::initial_environment_variables;
use littlebook::finder::{find_marked_dir, find_step, FindStep, FsSnapshot};
use littlebook::greet::greet;
use littlebook::install::{copy_plan, install_outcome, install_step, InstallStage, StepOutcome};
use littlebook::location::{
    find_parent_dir_containing, initial_working_directory, working_directory_or_fallback,
};
use littlebook::path::{normalize_path_text, parse_abs_path, path_to_string, FsPath};

fn fs_path(segs: &[&str]) -> FsPath {
    FsPath { segs: segs.iter().map(|s| s.to_string()).collect() }
}

fn snapshot(files: &[&[&str]]) -> FsSnapshot {
    FsSnapshot { files: files.iter().map(|f| fs_path(f)).collect() }
}

fn names(ns: &[&str]) -> Vec<String> {
    ns.iter().map(|s| s.to_string()).collect()
}

#[test]
fn greet_formats_name() {
    assert_eq!(greet("World"), "Hello, World! You've been greeted from Rust!");
}

#[test]
fn greet_empty_name() {
    assert_eq!(greet(""), "Hello, ! You've been greeted from Rust!");
}

#[test]
fn parse_splits_segments() {
    let p = parse_abs_path("/work/proj/src").expect("canonical path");
    assert_eq!(p.segs, vec!["work".to_string(), "proj".to_string(), "src".to_string()]);
}

#[test]
fn parse_root() {
    let p = parse_abs_path("/").expect("the root is canonical");
    assert!(p.segs.is_empty());
    assert_eq!(path_to_string(&p), "/");
}

#[test]
fn parse_print_round_trip() {
    for s in ["/a", "/a/b", "/work/proj/deep/er"] {
        let p = parse_abs_path(s).expect("canonical path");
        assert_eq!(path_to_string(&p), s);
    }
}

#[test]
fn parse_rejects_non_canonical() {
    for s in ["", "a/b", "relative", "/a/", "//", "/a//b", "/a/b/"] {
        assert!(parse_abs_path(s).is_none(), "accepted {:?}", s);
    }
}

#[test]
fn normalize_collapses_and_strips() {
    assert_eq!(normalize_path_text("/a//b/"), "/a/b");
    assert_eq!(normalize_path_text("/work///proj"), "/work/proj");
    assert_eq!(normalize_path_text("/"), "/");
    assert_eq!(normalize_path_text("//"), "/");
    assert_eq!(normalize_path_text("/already/canonical"), "/already/canonical");
    assert_eq!(normalize_path_text(""), "");
}

#[test]
fn find_parent_dir_containing_doubled_separator() {
    let fs = snapshot(&[&["work", "proj", ".git"]]);
    let r = find_parent_dir_containing("file:///work//proj/src", &names(&[".git"]), &fs);
    assert_eq!(r, Some("file:///work/proj".to_string()));
}

#[test]
fn finder_no_marker_anywhere_finds_nothing() {
    let fs = snapshot(&[&["work", "notes.txt"], &["work", "proj", "src", "main.rs"]]);
    let start = fs_path(&["work", "proj", "src"]);
    let r = find_marked_dir(&fs, &start, &names(&[".git", "Cargo.toml"]));
    assert!(r.is_none());
}

#[test]
fn finder_marker_in_start_returns_start() {
    let fs = snapshot(&[&["work", "proj", ".git"]]);
    let start = fs_path(&["work", "proj"]);
    let r = find_marked_dir(&fs, &start, &names(&[".git"])).expect("marker in start");
    assert_eq!(r.segs, fs_path(&["work", "proj"]).segs);
}

#[test]
fn finder_marker_two_levels_up() {
    let fs = snapshot(&[&["work", "marker"]]);
    let start = fs_path(&["work", "a", "b"]);
    let r = find_marked_dir(&fs, &start, &names(&["marker"])).expect("marker above");
    assert_eq!(r.segs, fs_path(&["work"]).segs);
}

#[test]
fn finder_nearest_directory_wins() {
    let fs = snapshot(&[&["work", "marker"], &["work", "a", "marker"]]);
    let start = fs_path(&["work", "a", "b"]);
    let r = find_marked_dir(&fs, &start, &names(&["marker"])).expect("marker above");
    assert_eq!(r.segs, fs_path(&["work", "a"]).segs);
}

#[test]
fn finder_name_order_does_not_matter() {
    let fs = snapshot(&[&["work", "proj", "Cargo.lock"]]);
    let start = fs_path(&["work", "proj", "src"]);
    let one = find_marked_dir(&fs, &start, &names(&["Cargo.toml", "Cargo.lock"]));
    let two = find_marked_dir(&fs, &start, &names(&["Cargo.lock", "Cargo.toml"]));
    assert_eq!(one.map(|p| p.segs), two.map(|p| p.segs));
}

#[test]
fn finder_empty_candidate_list_finds_nothing() {
    let fs = snapshot(&[&["work", ".git"]]);
    let start = fs_path(&["work"]);
    assert!(find_marked_dir(&fs, &start, &names(&[])).is_none());
}

#[test]
fn find_step_reports_match() {
    match find_step(fs_path(&["a", "b"]), true) {
        FindStep::Found(d) => assert_eq!(d.segs, fs_path(&["a", "b"]).segs),
        _ => panic!("a present marker must end the search"),
    }
}

#[test]
fn find_step_ascends_to_parent() {
    match find_step(fs_path(&["a", "b"]), false) {
        FindStep::Ascend(p) => assert_eq!(p.segs, fs_path(&["a"]).segs),
        _ => panic!("no marker and a parent left: the search must ascend"),
    }
}

#[test]
fn find_step_stops_at_root() {
    match find_step(fs_path(&[]), false) {
        FindStep::NotFound => {}
        _ => panic!("no marker at the root: the search is over"),
    }
}

#[test]
fn find_parent_dir_containing_through_urls() {
    let fs = snapshot(&[&["work", "proj", ".git"]]);
    let r = find_parent_dir_containing(
        "file:///work/proj/src",
        &names(&[".git"]),
        &fs,
    );
    assert_eq!(r, Some("file:///work/proj".to_string()));
}

#[test]
fn find_parent_dir_containing_start_itself() {
    let fs = snapshot(&[&["work", "proj", ".git"]]);
    let r = find_parent_dir_containing("file:///work/proj", &names(&[".git"]), &fs);
    assert_eq!(r, Some("file:///work/proj".to_string()));
}

#[test]
fn find_parent_dir_containing_unparsable_start() {
    let fs = snapshot(&[&["work", ".git"]]);
    assert!(find_parent_dir_containing("not a url", &names(&[".git"]), &fs).is_none());
}

#[test]
fn find_parent_dir_containing_non_file_scheme() {
    let fs = snapshot(&[&["work", ".git"]]);
    let r = find_parent_dir_containing("https://example.com/work", &names(&[".git"]), &fs);
    assert!(r.is_none());
}

#[test]
fn env_snapshot_matches_injected_set() {
    let vars = vec![
        ("HOME".to_string(), "/home/u".to_string()),
        ("LANG".to_string(), "C".to_string()),
        ("EDITOR".to_string(), "vi".to_string()),
    ];
    let snap = initial_environment_variables(vars);
    assert_eq!(snap.entry_count(), 3);
    assert_eq!(snap.get(&"HOME".to_string()), Some(&"/home/u".to_string()));
    assert_eq!(snap.get(&"LANG".to_string()), Some(&"C".to_string()));
    assert_eq!(snap.get(&"EDITOR".to_string()), Some(&"vi".to_string()));
    assert_eq!(snap.get(&"MISSING".to_string()), None);
}

#[test]
fn env_snapshot_later_entry_wins() {
    let vars = vec![
        ("K".to_string(), "old".to_string()),
        ("K".to_string(), "new".to_string()),
    ];
    let snap = initial_environment_variables(vars);
    assert_eq!(snap.get(&"K".to_string()), Some(&"new".to_string()));
}

#[test]
fn working_directory_fallback_is_dot() {
    assert_eq!(working_directory_or_fallback(None), ".");
    assert_eq!(working_directory_or_fallback(Some("/srv".to_string())), "/srv");
}

#[test]
fn initial_working_directory_as_directory_url() {
    let r = initial_working_directory(Some("/home/u".to_string()));
    assert_eq!(r, Some("file:///home/u/".to_string()));
}

#[test]
fn initial_working_directory_relative_fallback_fails() {
    // the placeholder "." is not absolute, so no URL can come back; the
    // caller treats that as an unrecoverable environment
    assert!(initial_working_directory(None).is_none());
}

#[test]
fn install_outcome_needs_every_step() {
    assert_eq!(install_outcome(true, true, true, true), Some(true));
    assert_eq!(install_outcome(false, true, true, true), None);
    assert_eq!(install_outcome(true, false, true, true), None);
    assert_eq!(install_outcome(true, true, false, true), None);
    assert_eq!(install_outcome(true, true, true, false), None);
}

#[test]
fn install_steps_run_in_order() {
    let s = install_step(InstallStage::ResolveResource, StepOutcome::Performed);
    assert_eq!(s, InstallStage::EnsureSystemDir);
    let s = install_step(s, StepOutcome::Performed);
    assert_eq!(s, InstallStage::EnsureUserDir);
    let s = install_step(s, StepOutcome::Performed);
    assert_eq!(s, InstallStage::CopyResources);
    let s = install_step(s, StepOutcome::Performed);
    assert_eq!(s, InstallStage::Done);
}

#[test]
fn install_existing_directory_still_succeeds() {
    // a system directory already in place is no failure
    let s = install_step(InstallStage::EnsureSystemDir, StepOutcome::AlreadyPresent);
    assert_eq!(s, InstallStage::EnsureUserDir);
    let s = install_step(s, StepOutcome::AlreadyPresent);
    assert_eq!(s, InstallStage::CopyResources);
}

#[test]
fn install_failure_ends_the_run() {
    let s = install_step(InstallStage::EnsureSystemDir, StepOutcome::Failed);
    assert_eq!(s, InstallStage::Failed);
    assert_eq!(install_step(s, StepOutcome::Performed), InstallStage::Failed);
}

#[test]
fn copy_plan_keeps_relative_locations() {
    let source = fs_path(&["res", "system"]);
    let target = fs_path(&["opt", "app", "system"]);
    let bundle = vec![fs_path(&["a.txt"]), fs_path(&["sub", "b.txt"])];
    let plan = copy_plan(&source, &target, &bundle);
    assert_eq!(plan.len(), 2);
    assert_eq!(plan[0].0.segs, fs_path(&["res", "system", "a.txt"]).segs);
    assert_eq!(plan[0].1.segs, fs_path(&["opt", "app", "system", "a.txt"]).segs);
    assert_eq!(plan[1].0.segs, fs_path(&["res", "system", "sub", "b.txt"]).segs);
    assert_eq!(plan[1].1.segs, fs_path(&["opt", "app", "system", "sub", "b.txt"]).segs);
}
