use meowdiff::ignore::{default_pattern_list, IgnoreMatcher, CUSTOM_IGNORE_FILE};

const ROOT: &str = "/home/u/proj";

#[test]
fn default_rules_are_listed() {
    let m = IgnoreMatcher::new(ROOT, None).unwrap();
    assert_eq!(
        m.rules(),
        &[
            ".git/",
            ".svn/",
            ".hg/",
            "node_modules/",
            "dist/",
            "build/",
            "coverage/",
            "__pycache__/",
            "venv/",
            ".venv/",
            ".idea/",
            ".vscode/",
            ".DS_Store",
            "target/",
        ]
    );
    assert_eq!(m.root(), ROOT);
    assert_eq!(default_pattern_list().len(), 14);
    assert_eq!(CUSTOM_IGNORE_FILE, ".meowdiffignore");
}

#[test]
fn build_and_vcs_directories_are_ignored() {
    let m = IgnoreMatcher::new(ROOT, None).unwrap();
    assert!(m.is_ignored("/home/u/proj/target", true));
    assert!(m.is_ignored("/home/u/proj/target/debug/app", false));
    assert!(m.is_ignored("/home/u/proj/.git/HEAD", false));
    assert!(m.is_ignored("/home/u/proj/web/node_modules/x/index.js", false));
    assert!(m.is_ignored("/home/u/proj/.DS_Store", false));
    assert!(m.is_ignored("/home/u/proj/sub/.DS_Store", false));
}

#[test]
fn ordinary_files_are_tracked() {
    let m = IgnoreMatcher::new(ROOT, None).unwrap();
    assert!(!m.is_ignored("/home/u/proj/src/main.rs", false));
    assert!(!m.is_ignored("/home/u/proj/a.txt", false));
    assert!(!m.is_ignored("/home/u/proj/src", true));
    assert!(!m.is_ignored("/home/u/proj/target", false));
    assert!(!m.is_ignored("/home/u/proj/targets/x", false));
}

#[test]
fn root_and_outside_paths_are_not_ignored() {
    let m = IgnoreMatcher::new(ROOT, None).unwrap();
    assert!(!m.is_ignored(ROOT, true));
    assert!(!m.is_ignored("/home/u/proj/", true));
    assert!(!m.is_ignored("/elsewhere/target/x", false));
    assert!(!m.is_ignored("/home/u/project/target", true));
    assert!(!m.is_ignored("target", true));
    assert!(!m.is_ignored("", false));
}

#[test]
fn doubled_slashes_are_taken_as_one() {
    let m = IgnoreMatcher::new(ROOT, None).unwrap();
    assert!(m.is_ignored("/home/u/proj//target/x", false));
    assert!(!m.is_ignored("/home/u/proj//src/x", false));
}

#[test]
fn missing_custom_file_fails_the_matcher() {
    let r = IgnoreMatcher::new(ROOT, Some("/no/such/dir/.meowdiffignore"));
    match r {
        Err(meowdiff::ignore::IgnoreError::CustomFile(path, _)) => {
            assert_eq!(path, "/no/such/dir/.meowdiffignore")
        }
        Err(other) => panic!("unexpected error {:?}", other),
        Ok(_) => panic!("expected an error"),
    }
}

#[test]
fn relative_paths_are_judged_below_the_root() {
    let m = IgnoreMatcher::new(ROOT, None).unwrap();
    assert!(m.is_ignored_below("target", true));
    assert!(m.is_ignored_below("target/debug/app", false));
    assert!(m.is_ignored_below("web/node_modules/x.js", false));
    assert!(!m.is_ignored_below("src/main.rs", false));
    assert!(!m.is_ignored_below("target", false));
    assert!(!m.is_ignored_below("", true));
    assert!(!m.is_ignored_below("/target", true));
}

#[test]
fn roots_written_with_a_dot_are_matched_too() {
    let m = IgnoreMatcher::new("./proj", None).unwrap();
    assert_eq!(m.root(), "./proj");
    assert!(m.is_ignored("./proj/target/x", false));
    assert!(m.is_ignored("./proj/.git/HEAD", false));
    assert!(!m.is_ignored("./proj/src/x", false));
    assert!(m.is_ignored_below("target/x", false));
    let m = IgnoreMatcher::new(".", None).unwrap();
    assert!(m.is_ignored("./target/x", false));
    assert!(m.is_ignored("./node_modules", true));
    assert!(!m.is_ignored("./src/x", false));
    assert!(m.is_ignored_below("a/target/x", false));
    let m = IgnoreMatcher::new("", None).unwrap();
    assert!(m.is_ignored_below("target/x", false));
    assert!(!m.is_ignored_below("src/x", false));
    let m = IgnoreMatcher::new("./", None).unwrap();
    assert!(m.is_ignored_below("target/x", false));
    let m = IgnoreMatcher::new("./.", None).unwrap();
    assert!(m.is_ignored_below("target/x", false));
    assert!(!m.is_ignored_below("src/x", false));
}
