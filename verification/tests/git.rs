use diffkit::git::{
    diff_arguments, revision_endpoints, should_skip, split_listing, untracked_arguments,
    GitComparison, GitEndpoint, OverlayAction, SelectedPath,
};
use diffkit::paths::SourcePath;

#[test]
fn validates_revision_arity_before_running_git() {
    let error = GitComparison::discover(
        &SourcePath::new("."),
        &vec!["a".into(), "b".into(), "c".into()],
        &vec![],
        &vec![],
        &vec![],
    )
    .unwrap_err();
    assert!(error.to_string().contains("zero, one, or two"));
}

#[test]
fn skips_generated_and_dependency_directories() {
    assert!(should_skip(&SourcePath::new("target/debug/app")));
    assert!(should_skip(&SourcePath::new("web/node_modules/pkg")));
    assert!(!should_skip(&SourcePath::new("src/main.rs")));
}

#[test]
fn one_revision_is_compared_with_its_parent() {
    let (before, after) = revision_endpoints(&vec!["abc".to_owned()]).unwrap();
    assert_eq!(before, GitEndpoint::Revision("abc^".to_owned()));
    assert_eq!(after, GitEndpoint::Revision("abc".to_owned()));
    let (before, after) = revision_endpoints(&vec![]).unwrap();
    assert_eq!(before.label(), "HEAD");
    assert_eq!(after.label(), "worktree");
}

#[test]
fn git_is_asked_for_names_between_zero_bytes() {
    let (before, after) = revision_endpoints(&vec![]).unwrap();
    let paths = vec![SourcePath::new("src")];
    assert_eq!(
        diff_arguments(&before, &after, &paths).unwrap(),
        ["diff", "--no-renames", "--name-only", "-z", "HEAD", "--", "src"]
    );
    assert_eq!(
        untracked_arguments(&after, &vec![]).unwrap(),
        ["ls-files", "--others", "--exclude-standard", "-z"]
    );
    assert!(untracked_arguments(&before, &vec![]).is_none());
    assert_eq!(
        diff_arguments(&after, &before, &vec![]).unwrap_err(),
        "worktree can only be the after endpoint"
    );
    assert_eq!(
        split_listing(&b"a.rs\0\0b.rs\0".to_vec()),
        vec![b"a.rs".to_vec(), b"b.rs".to_vec()]
    );
}

#[test]
fn changed_paths_are_sorted_and_united() {
    let comparison = GitComparison::discover(
        &SourcePath::new("/repo"),
        &vec![],
        &vec![SourcePath::new("src")],
        &vec![SourcePath::new("src/z.rs"), SourcePath::new("src/a.rs")],
        &vec![SourcePath::new("src//a.rs"), SourcePath::new("src/m.rs")],
    )
    .unwrap();
    let texts: Vec<&str> = comparison.changed_paths.iter().map(|path| path.text.as_str()).collect();
    assert_eq!(texts, ["src/a.rs", "src/m.rs", "src/z.rs"]);
    assert!(comparison.restricted);
    let plan = comparison.materialize(&vec![
        SelectedPath { has_contents: true, was_file: true, was_directory: false },
        SelectedPath { has_contents: false, was_file: true, was_directory: false },
        SelectedPath { has_contents: false, was_file: false, was_directory: true },
        SelectedPath { has_contents: false, was_file: false, was_directory: false },
    ]);
    assert_eq!(
        plan,
        [
            OverlayAction::Write,
            OverlayAction::RemoveFile,
            OverlayAction::RemoveDirectory,
            OverlayAction::Leave
        ]
    );
}
