//! Values, names and places.
use diffkit::engine::DiffReport;
use diffkit::files::{file_identity, same_source_file, KnownFile, SourceFile};
use diffkit::git::{contents_query, validate_endpoint, GitEndpoint};
use diffkit::json::Json;
use diffkit::model::{SourceSpan, SymbolId, LanguageId};
use diffkit::paths::SourcePath;
use diffkit::plans::{
    covered_paths, marker_directories, plan_files, project_paths, relative_cargo_root,
    relevant_paths, uncovered_paths, workspace_directory, FilePlan,
};
use diffkit::selection::{
    comparison_language, detect_file_language, endpoint_project_label, git_output,
    is_ocaml_project_trigger, is_rust_project_trigger, no_git_changes, relative_snapshot_path,
    rust_config_changed, select_paths, PathFilter, SourceLanguage,
};
use diffkit::source::{
    collect_source_files, layout_of_metadata, rust_file_is_project_source, sort_paths,
    EntryAction, EntryKind,
};
use diffkit::spans::{rustc_source_span, span_contains, span_size, spans_overlap};
use diffkit::text::{decimal_text, parse_number, replace_text, split_text, trim_text};

fn path(text: &str) -> SourcePath {
    SourcePath::new(text)
}

fn paths(texts: &[&str]) -> Vec<SourcePath> {
    texts.iter().map(|text| path(text)).collect()
}

fn span(start_line: usize, start_column: usize, end_line: usize, end_column: usize) -> SourceSpan {
    SourceSpan {
        file: path("a.rs"),
        start_line,
        start_column,
        start_byte: None,
        end_line,
        end_column,
        end_byte: None,
    }
}

#[test]
fn texts_are_cut_and_put_together() {
    assert_eq!(split_text("a::b::", "::"), ["a", "b", ""]);
    assert_eq!(replace_text("aXbXc", "X", "--"), "a--b--c");
    assert_eq!(trim_text(" \t a b \n"), "a b");
    assert_eq!(decimal_text(0), "0");
    assert_eq!(decimal_text(40_960), "40960");
    assert_eq!(parse_number("40960"), Some(40_960));
    assert_eq!(parse_number("4x"), None);
}

#[test]
fn spans_lie_in_each_other() {
    let outer = span(1, 4, 9, 2);
    let inner = span(2, 0, 9, 2);
    assert!(span_contains(&outer, &inner));
    assert!(!span_contains(&inner, &outer));
    assert!(span_contains(&outer, &outer));
    assert!(spans_overlap(&outer, &inner));
    assert_eq!(span_size(&span(2, 3, 4, 10)), 20_007);
}

#[test]
fn spans_of_rustc_begin_at_column_one() {
    let told = rustc_source_span(path("src/a.rs"), Some(path("/project")), (3, 5), (0, 0));
    assert_eq!(told.file, path("/project/src/a.rs"));
    assert_eq!((told.start_line, told.start_column), (3, 4));
    assert_eq!((told.end_line, told.end_column), (3, 0));
    let absolute = rustc_source_span(path("/a.rs"), Some(path("/project")), (1, 1), (2, 9));
    assert_eq!(absolute.file, path("/a.rs"));
    assert_eq!((absolute.end_line, absolute.end_column), (2, 8));
}

#[test]
fn files_are_told_apart_by_what_they_resolve_to() {
    let known = vec![
        KnownFile { path: path("link.rs"), canonical: path("/real/a.rs") },
        KnownFile { path: path("a.rs"), canonical: path("/real/a.rs") },
    ];
    assert!(same_source_file(&known, &path("link.rs"), &path("a.rs")));
    assert!(!same_source_file(&known, &path("link.rs"), &path("b.rs")));
    let file = SourceFile { path: path("link.rs"), known };
    assert!(file.same_file(&path("a.rs")));
    assert_eq!(file_identity(&path("b.rs"), None, Some(path("/now"))), path("/now/b.rs"));
    assert_eq!(file_identity(&path("b.rs"), Some(path("/real/b.rs")), None), path("/real/b.rs"));
}

#[test]
fn symbols_are_written_as_addresses() {
    let symbol = SymbolId {
        language: LanguageId("rust".to_owned()),
        module: vec!["store".to_owned()],
        container: Some("Postgres".to_owned()),
        name: "save".to_owned(),
    };
    assert_eq!(symbol.to_text(), "rust://store::Postgres::save");
    assert_eq!(symbol.qualified_parts(), ["store", "Postgres", "save"]);
}

#[test]
fn languages_are_told_by_extension() {
    assert_eq!(detect_file_language(&path("A.RS")), Ok(SourceLanguage::Rust));
    assert_eq!(detect_file_language(&path("a.mli")), Ok(SourceLanguage::Ocaml));
    assert_eq!(
        detect_file_language(&path("a.txt")).unwrap_err(),
        "cannot infer a language from a.txt; expected .rs, .ml, or .mli"
    );
    assert_eq!(
        comparison_language(None, &path("a.rs"), &path("b.ml")).unwrap_err(),
        "cannot compare a.rs and b.ml because their languages differ"
    );
    assert_eq!(
        comparison_language(Some(SourceLanguage::Rust), &path("a.rs"), &path("b.ml")),
        Ok(SourceLanguage::Rust)
    );
}

#[test]
fn projects_change_with_their_configuration() {
    assert!(is_rust_project_trigger(&path("a/Cargo.lock")));
    assert!(is_rust_project_trigger(&path(".cargo/config.toml")));
    assert!(!is_rust_project_trigger(&path("README.md")));
    assert!(is_ocaml_project_trigger(&path("lib/dune")));
    assert!(is_ocaml_project_trigger(&path("a.opam")));
    let changed = paths(&["a/x.rs", "b/Cargo.toml", "c/y.ml", "z.md"]);
    assert_eq!(select_paths(PathFilter::RustSource, &changed), paths(&["a/x.rs"]));
    assert_eq!(
        select_paths(PathFilter::RustTrigger, &changed),
        paths(&["a/x.rs", "b/Cargo.toml"])
    );
    assert_eq!(select_paths(PathFilter::OcamlTrigger, &changed), paths(&["c/y.ml"]));
    let triggers = paths(&["a/x.rs", "b/Cargo.toml"]);
    assert!(rust_config_changed(&triggers, &path("b")));
    assert!(!rust_config_changed(&triggers, &path("a")));
}

#[test]
fn comparisons_are_labelled_by_their_endpoints() {
    assert_eq!(endpoint_project_label("HEAD", &path("")), "HEAD");
    assert_eq!(endpoint_project_label("HEAD", &path("crates/a")), "HEAD:crates/a");
    assert_eq!(no_git_changes("HEAD", "worktree"), "No call changes between HEAD and worktree.");
    assert_eq!(git_output(&Vec::new(), "a", "b"), "No call changes between a and b.");
    let reports = vec!["one".to_owned(), "two".to_owned()];
    assert_eq!(git_output(&reports, "a", "b"), "one\n\ntwo");
}

#[test]
fn snapshots_hold_projects() {
    assert_eq!(
        marker_directories(&path("/snap"), &path("a/b/c.rs")),
        paths(&["/snap/a/b", "/snap/a", "/snap"])
    );
    assert_eq!(
        relative_snapshot_path(&path("/snap"), None, &path("/snap/a")),
        Some(path("a"))
    );
    assert_eq!(
        relative_snapshot_path(&path("/snap"), Some(&path("/real")), &path("/real/a")),
        Some(path("a"))
    );
    assert_eq!(relative_snapshot_path(&path("/snap"), None, &path("/other")), None);
    assert_eq!(
        relative_cargo_root(
            &path("/snap"),
            None,
            &path("/snap/crates/a"),
            Some(&path("/elsewhere"))
        ),
        Some(path("crates/a"))
    );
    assert_eq!(workspace_directory(" /w/Cargo.toml\n"), Some(path("/w")));
}

#[test]
fn changed_files_go_with_their_projects() {
    let all = paths(&["a/x.rs", "b/y.rs", "ab/z.rs"]);
    assert_eq!(project_paths(&all, &path("a")), paths(&["a/x.rs"]));
    assert_eq!(
        uncovered_paths(&all, &paths(&["a/x.rs"])),
        paths(&["b/y.rs", "ab/z.rs"])
    );
    assert_eq!(plan_files(SourceLanguage::Rust, true, Some(true)), FilePlan::RustProject);
    assert_eq!(plan_files(SourceLanguage::Rust, true, Some(false)), FilePlan::RustFile);
    assert_eq!(plan_files(SourceLanguage::Ocaml, true, None), FilePlan::OcamlProject);
    assert_eq!(plan_files(SourceLanguage::Ocaml, false, None), FilePlan::OcamlFile);
}

#[test]
fn revisions_are_asked_for_as_commits() {
    let revision = GitEndpoint::Revision("main".to_owned());
    assert_eq!(
        validate_endpoint(&revision).unwrap(),
        ["rev-parse", "--verify", "main^{commit}"]
    );
    assert_eq!(validate_endpoint(&GitEndpoint::Worktree), None);
    assert_eq!(contents_query("main", &path("src/a.rs")), "main:src/a.rs");
}

#[test]
fn cargo_targets_tell_which_sources_are_compiled() {
    let metadata = Json::Object(vec![(
        "packages".to_owned(),
        Json::List(vec![Json::Object(vec![
            ("manifest_path".to_owned(), Json::Text("/p/Cargo.toml".to_owned())),
            (
                "targets".to_owned(),
                Json::List(vec![Json::Object(vec![(
                    "src_path".to_owned(),
                    Json::Text("/p/tools/gen/main.rs".to_owned()),
                )])]),
            ),
        ])]),
    )]);
    let layout = layout_of_metadata(&metadata).unwrap();
    assert!(layout_of_metadata(&Json::Null).is_none());
    let root = path("/p");
    let compiled =
        |file: &str| rust_file_is_project_source(&path(file), Some(&root), Some(&layout));
    assert!(compiled("/p/src/lib.rs"));
    assert!(compiled("/p/tools/gen/main.rs"));
    assert!(!compiled("/p/notes/a.rs"));
    assert!(!rust_file_is_project_source(&path("/p/src/lib.rs"), None, None));
}

#[test]
fn source_directories_are_walked_in_order() {
    let extensions = vec!["ml".to_owned()];
    assert_eq!(
        collect_source_files(&path("lib"), EntryKind::Directory, &extensions),
        EntryAction::Descend
    );
    assert_eq!(
        collect_source_files(&path("_build"), EntryKind::Directory, &extensions),
        EntryAction::Skip
    );
    assert_eq!(
        collect_source_files(&path("a.ml"), EntryKind::File, &extensions),
        EntryAction::Keep
    );
    assert_eq!(
        collect_source_files(&path("a.rs"), EntryKind::File, &extensions),
        EntryAction::Skip
    );
    assert_eq!(sort_paths(&paths(&["b", "a", "b"])), paths(&["a", "b"]));
}

#[test]
fn paths_are_taken_apart_and_put_together() {
    assert_eq!(path("/a/b/c").strip_prefix(&path("/a")), Some(path("b/c")));
    assert_eq!(path("/a").strip_prefix(&path("/a")), Some(path("")));
    assert_eq!(path("/ab").strip_prefix(&path("/a")), None);
    assert_eq!(path("/a").strip_prefix(&path("")), Some(path("/a")));
    assert_eq!(path("a/./b").strip_prefix(&path("a")), Some(path("b")));
    assert_eq!(path("/new").join("b/c"), path("/new/b/c"));
    assert_eq!(path("/new").join("/b"), path("/b"));
}

#[test]
fn projects_without_changes_are_passed_over() {
    let all = paths(&["a/src/x.rs", "a/docs/y.rs", "b/z.rs"]);
    let sources = vec![true, false, true];
    assert_eq!(
        relevant_paths(&all, &all, &path("a"), &sources),
        Some(paths(&["a/src/x.rs"]))
    );
    assert_eq!(relevant_paths(&all, &all, &path("c"), &sources), None);
    let none = vec![false, false, false];
    assert_eq!(relevant_paths(&all, &all, &path("a"), &none), None);
    let triggers = paths(&["a/Cargo.toml", "a/src/x.rs"]);
    assert_eq!(relevant_paths(&all, &triggers, &path("a"), &none), Some(Vec::new()));
    assert_eq!(relevant_paths(&all, &triggers, &path("b"), &none), None);
}

#[test]
fn analyzed_files_are_covered_on_either_side() {
    let report = DiffReport {
        language: "rust".to_owned(),
        before: String::new(),
        after: String::new(),
        trees: Vec::new(),
        message: None,
        diagnostics: Vec::new(),
        analyzed_files: paths(&["/before/x.rs", "/after/y.rs"]),
    };
    let all = paths(&["x.rs", "y.rs", "z.rs"]);
    let side = |root: &str| -> Vec<SourceFile> {
        all.iter()
            .map(|relative| SourceFile {
                path: path(root).join(&relative.text),
                known: Vec::new(),
            })
            .collect()
    };
    assert_eq!(
        covered_paths(&report, &all, &side("/before"), &side("/after")),
        paths(&["x.rs", "y.rs"])
    );
    assert!(covered_paths(&report, &all, &Vec::new(), &Vec::new()).is_empty());
}
