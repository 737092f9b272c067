use diffkit::paths::SourcePath;
use diffkit::source::{
    cargo_source_layout, contains_generated_component, find_cargo_root, find_ocaml_root, has_extension,
    is_generated_directory, rust_file_is_project_source, search_directories, source_module,
};

fn path(text: &str) -> SourcePath {
    SourcePath::new(text)
}

#[test]
fn generated_directory_policy_is_shared_by_all_frontends() {
    for directory in [
        ".git",
        "target",
        "_build",
        "node_modules",
        ".zig-cache",
        "zig-out",
    ] {
        assert!(is_generated_directory(&path(directory)));
        assert!(contains_generated_component(&path("src").join(directory)));
    }
    assert!(!is_generated_directory(&path("src")));
}

#[test]
fn cargo_test_targets_are_project_sources() {
    let root = path("/work/diffkit");
    let test = root.join("tests/cli.rs");
    let metadata = r#"{
        "packages": [{
            "name": "diffkit",
            "manifest_path": "/work/diffkit/Cargo.toml",
            "targets": [
                {"kind": ["lib"], "src_path": "/work/diffkit/src/lib.rs"},
                {"kind": ["test"], "src_path": "/work/diffkit/tests/cli.rs"}
            ]
        }],
        "version": 1
    }"#;
    let layout = cargo_source_layout(&metadata.as_bytes().to_vec()).unwrap();
    assert!(rust_file_is_project_source(&test, Some(&root), Some(&layout)));
    assert!(rust_file_is_project_source(&root.join("tests/cli/more.rs"), Some(&root), Some(&layout)));
    assert!(!rust_file_is_project_source(&root.join("docs/a.rs"), Some(&root), Some(&layout)));
    assert!(!rust_file_is_project_source(&test, None, Some(&layout)));
    assert!(!rust_file_is_project_source(&test, Some(&root), None));
    assert!(rust_file_is_project_source(&root.join("src/a.rs"), Some(&root), None));
}

#[test]
fn paths_are_compared_by_their_parts() {
    assert_eq!(path("a//b/"), path("a/b"));
    assert_eq!(path("a/./b"), path("a/b"));
    assert!(path("./a") != path("a"));
    assert!(path("/a") != path("a"));
    assert!(path("a/b").before(&path("a.b")));
    assert!(path("..").before(&path("!")));
}

#[test]
fn paths_come_apart_and_together() {
    assert_eq!(path("src/lib.rs").extension().unwrap(), "rs");
    assert_eq!(path(".gitignore").extension(), None);
    assert_eq!(path("a/b.tar.gz").file_stem().unwrap(), "b.tar");
    assert_eq!(path("a/..").file_name(), None);
    assert_eq!(path("/a/b").parent().unwrap().text, "/a");
    assert_eq!(path("a").parent().unwrap().text, "");
    assert!(path("/").parent().is_none());
    assert_eq!(path("a").join("b").text, "a/b");
    assert_eq!(path("a/").join("b").text, "a/b");
    assert_eq!(path("a").join("/b").text, "/b");
    assert_eq!(path("/a/b/c").strip_prefix(&path("/a")).unwrap().text, "b/c");
    assert!(path("/ab").strip_prefix(&path("/a")).is_none());
    assert!(path("/a/b").starts_with(&path("/a")));
    let above: Vec<String> = path("/a/b").ancestors().into_iter().map(|path| path.text).collect();
    assert_eq!(above, ["/a/b", "/a", "/"]);
}

#[test]
fn modules_follow_the_source_tree() {
    assert_eq!(source_module(&path("p"), &path("p/src/a/b.rs")), ["a", "b"]);
    assert_eq!(source_module(&path("p"), &path("p/src/lib.rs")), Vec::<String>::new());
    assert_eq!(source_module(&path("p"), &path("p/x/mod.rs")), ["x"]);
}

#[test]
fn projects_are_looked_for_upwards() {
    let file = path("/w/p/src/a.rs");
    let searched: Vec<String> =
        search_directories(&file, false).into_iter().map(|path| path.text).collect();
    assert_eq!(searched, ["/w/p/src", "/w/p", "/w", "/"]);
    assert_eq!(find_cargo_root(&file, false, &vec![false, true, true, false]).unwrap().text, "/w/p");
    assert_eq!(
        find_cargo_root(&file, false, &vec![false, false, false, false]).unwrap_err(),
        "no Cargo.toml found above /w/p/src/a.rs"
    );
    assert_eq!(find_ocaml_root(&file, false, &vec![false; 4]).text, "/w/p/src");
    assert!(has_extension(&path("a.ml"), &vec!["ml".to_owned(), "mli".to_owned()]));
}

#[test]
fn the_directory_above_a_relative_name_is_the_current_one() {
    let file = path("src/a.rs");
    let searched: Vec<String> =
        search_directories(&file, false).into_iter().map(|path| path.text).collect();
    assert_eq!(searched, ["src", "."]);
    assert_eq!(find_cargo_root(&file, false, &vec![false, true]).unwrap().text, ".");
    assert_eq!(find_ocaml_root(&file, false, &vec![false, true]).text, ".");
    assert_eq!(find_ocaml_root(&path("a.ml"), false, &vec![false]).text, ".");
}

fn layout(metadata: &str) -> Option<(Vec<SourcePath>, Vec<SourcePath>)> {
    let layout = cargo_source_layout(&metadata.as_bytes().to_vec())?;
    Some((layout.package_roots, layout.target_sources))
}

#[test]
fn metadata_tell_where_the_sources_of_packages_lie() {
    let metadata = r#"{"packages": [
        {"manifest_path": "/w/a/Cargo.toml", "targets": [
            {"src_path": "/w/a/src/lib.rs"}, {"src_path": "/w/a/build.rs"}
        ]},
        {"manifest_path": "/w/\u00e9/Cargo.toml", "targets": [{"src_path": "/w/\u00e9/main.rs"}]}
    ]}"#;
    assert_eq!(
        layout(metadata),
        Some((
            vec![path("/w/a"), path("/w/\u{e9}")],
            vec![path("/w/a/src/lib.rs"), path("/w/a/build.rs"), path("/w/\u{e9}/main.rs")],
        ))
    );
}

#[test]
fn odd_parts_of_metadata_are_left_out() {
    let metadata = r#"{"packages": [
        7, null, "text", [],
        {"targets": [{"src_path": "/w/b/lib.rs"}, {"src_path": 1}, {}, true]},
        {"manifest_path": 3, "targets": {"src_path": "/w/c/lib.rs"}},
        {"manifest_path": "/", "targets": null},
        {"manifest_path": "/w/d/Cargo.toml"}
    ]}"#;
    assert_eq!(layout(metadata), Some((vec![path("/w/d")], vec![path("/w/b/lib.rs")])));
    assert_eq!(layout(r#"{"packages": []}"#), Some((Vec::new(), Vec::new())));
}

#[test]
fn metadata_without_packages_tell_nothing() {
    assert_eq!(layout(r#"{"packages": {"manifest_path": "/w/Cargo.toml"}}"#), None);
    assert_eq!(layout(r#"{"version": 1}"#), None);
    assert_eq!(layout("[]"), None);
    assert_eq!(layout("no JSON"), None);
    assert_eq!(layout(""), None);
    let last = r#"{"packages": null, "packages": [{"manifest_path": "/w/Cargo.toml"}]}"#;
    assert_eq!(layout(last), Some((vec![path("/w")], Vec::new())));
}
