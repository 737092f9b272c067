//! Reports from sources to lines.
use diffkit::engine::{
    load_error, ocamldiff_paths, ocamldiff_project_files, ocamldiff_sources, ocamltree_path,
    ocamltree_project_file, rustdiff_paths, rustdiff_project_files, rustdiff_project_paths,
    rustdiff_sources, rusttree_project_file, DiffOptions, DiffReport, TreeReport,
};
use diffkit::files::SourceFile;
use diffkit::findings::CompilerFindings;
use diffkit::language::{FileContext, LanguageBackend, OcamlFrontend};
use diffkit::model::{CallNode, CallRelation, FileAnalysis};
use diffkit::paths::SourcePath;
use diffkit::render::{
    render_report, render_report_with_options, render_tree_report_with_options, ColorMode,
    RenderOptions,
};

fn plain() -> RenderOptions {
    RenderOptions { show_types: false, color: ColorMode::Plain }
}

fn options(entries: &[&str]) -> DiffOptions {
    DiffOptions {
        entries: entries.iter().map(|entry| entry.to_string()).collect(),
        max_depth: 8,
    }
}

fn analyze(name: &str, source: &str) -> FileAnalysis {
    let path = SourcePath::new(name);
    let module = Vec::new();
    let findings = CompilerFindings { events: None, programs: Vec::new(), known: Vec::new() };
    OcamlFrontend
        .analyze_file(&FileContext { path: &path, module: &module }, source, &findings)
        .unwrap()
}

fn file(name: &str) -> SourceFile {
    SourceFile { path: SourcePath::new(name), known: Vec::new() }
}

fn tree(source: &str) -> TreeReport {
    ocamltree_path(&file("calls.ml"), vec![analyze("calls.ml", source)], &options(&[])).unwrap()
}

fn compare(before: &str, after: &str, options: &DiffOptions) -> Result<DiffReport, String> {
    ocamldiff_sources("before.ml", before, None, "after.ml", after, None, &Vec::new(), options)
}

fn shown(source: &str) -> String {
    render_tree_report_with_options(&tree(source), &plain())
}

#[test]
fn trees_show_what_functions_lead_to() {
    let source = "module Sql = struct let insert order = order end\n\
        module Postgres = struct let save order = Sql.insert order end\n\
        let validate order = order\n\
        let finalize order = order\n\
        let run order = validate order; Postgres.save order; finalize order\n";
    assert_eq!(
        shown(source),
        "calls.ml\n\n  run order\n  ├─ validate order\n  ├─ Postgres.save order\n  │  └─ Sql.insert order\n  └─ finalize order"
    );
}

#[test]
fn reports_show_what_was_removed_and_added() {
    let before = "let run order = validate order; save order; finalize order\n";
    let after = "let run order = save order; finalize order; log order\n";
    let report = compare(before, after, &options(&[])).unwrap();
    assert_eq!(
        render_report_with_options(&report, &plain()),
        "ocamldiff before.ml → after.ml\n\n  run order\n- ├─ validate order\n  ├─ save order\n  ├─ finalize order\n+ └─ log order"
    );
    assert_eq!(
        render_report(&report),
        "ocamldiff before.ml → after.ml\n\n  run order\n\u{1b}[31m- ├─ validate order\u{1b}[0m\n  ├─ save order\n  ├─ finalize order\n\u{1b}[32m+ └─ log order\u{1b}[0m"
    );
}

#[test]
fn the_same_program_has_no_changes_to_show() {
    let source = "let run order = save order\n";
    let report = compare(source, source, &options(&[])).unwrap();
    assert!(report.trees.is_empty());
    assert_eq!(
        report.message.as_deref(),
        Some("No ocaml call changes between before.ml and after.ml.")
    );
    assert_eq!(
        render_report_with_options(&report, &plain()),
        "ocamldiff before.ml → after.ml\n\nNo ocaml call changes between before.ml and after.ml."
    );
}

#[test]
fn roots_of_one_side_are_removed_and_added_trees() {
    let report = compare("let first x = save x\n", "let second x = save x\n", &options(&[])).unwrap();
    let shown = render_report_with_options(&report, &plain());
    assert!(shown.contains("- first x"), "{shown}");
    assert!(shown.contains("+ second x"), "{shown}");
    assert_eq!(report.trees.len(), 2);
}

#[test]
fn a_change_below_the_depth_is_still_told() {
    let before = "let c x = one x\nlet b x = c x\nlet a x = b x\n";
    let after = "let c x = two x\nlet b x = c x\nlet a x = b x\n";
    let shallow = DiffOptions { entries: Vec::new(), max_depth: 1 };
    let report = compare(before, after, &shallow).unwrap();
    assert_eq!(report.trees.len(), 1);
    let shown = render_report_with_options(&report, &plain());
    assert!(shown.contains("… changed below max depth"), "{shown}");
    assert!(!shown.contains("two x"), "{shown}");
}

#[test]
fn entries_select_trees() {
    let before = "let a x = one x\nlet b x = one x\n";
    let after = "let a x = two x\nlet b x = two x\n";
    let report = compare(before, after, &options(&["a"])).unwrap();
    assert_eq!(report.trees.len(), 1);
    assert_eq!(report.trees[0].entry.name, "a");
    assert_eq!(
        compare(before, after, &options(&["missing"])).unwrap_err(),
        "entry not found: missing"
    );
}

#[test]
fn entries_of_a_file_are_looked_for_in_it() {
    let source = "let run order = save order\n";
    let analyses = vec![analyze("calls.ml", source)];
    assert_eq!(
        ocamltree_path(&file("calls.ml"), analyses, &options(&["missing"])).unwrap_err(),
        "entry not found in selected file: missing"
    );
    let analyses = vec![analyze("calls.ml", source)];
    let report = ocamltree_path(&file("other.ml"), analyses, &options(&[])).unwrap();
    assert_eq!(report.message.as_deref(), Some("No ocaml call trees in other.ml."));
}

#[test]
fn callers_that_pass_different_functions_do_not_mix() {
    let source = "let save x = Db.put x\n\
        let log x = Out.put x\n\
        let apply f x = f x\n\
        let first x = apply save x\n\
        let second x = apply log x\n";
    let report = tree(source);
    let lines = |name: &str| {
        let entry = report.trees.iter().find(|entry| entry.entry.name == name).unwrap();
        let mut labels = Vec::new();
        collect_labels(&entry.tree, &mut labels);
        labels
    };
    let first = lines("first");
    assert!(first.iter().any(|label| label == "Db.put x"), "{first:?}");
    assert!(!first.iter().any(|label| label == "Out.put x"), "{first:?}");
    let second = lines("second");
    assert!(second.iter().any(|label| label == "Out.put x"), "{second:?}");
    assert!(!second.iter().any(|label| label == "Db.put x"), "{second:?}");
}

fn collect_labels(node: &CallNode, labels: &mut Vec<String>) {
    labels.push(node.label.default.clone());
    for child in &node.children {
        collect_labels(child, labels);
    }
}

#[test]
fn local_functions_are_closures() {
    let source = "let run order = let persist order = write order in persist order\n";
    assert_eq!(
        shown(source),
        "calls.ml\n\n  run order\n  └─ persist order [closure#0]\n     └─ write order"
    );
}

#[test]
fn recursion_leads_back_to_an_ancestor() {
    let report = tree("let rec a x = b x and b x = a x\n");
    let root = &report.trees[0].tree;
    let again = &root.children[0].children[0];
    assert_eq!(again.relation, CallRelation::BackEdge);
    assert_eq!(again.key, root.key);
    assert!(again.children.is_empty());
    let shown = render_tree_report_with_options(&report, &plain());
    assert!(shown.contains("a x ◀"), "{shown}");
}

#[test]
fn files_of_a_project_are_compared_in_it() {
    let before = vec![
        analyze("a.ml", "let entry x = helper x\n"),
        analyze("b.ml", "let other x = one x\n"),
    ];
    let after = vec![
        analyze("a.ml", "let entry x = changed x\n"),
        analyze("b.ml", "let other x = two x\n"),
    ];
    let report =
        ocamldiff_project_files(&file("a.ml"), before, &file("a.ml"), after, &options(&[])).unwrap();
    assert_eq!(report.trees.len(), 1);
    assert_eq!(report.trees[0].entry.name, "entry");
    assert_eq!(report.analyzed_files.len(), 2);
}

#[test]
fn whole_projects_are_compared() {
    let report = ocamldiff_paths(
        &SourcePath::new("old"),
        vec![analyze("a.ml", "let entry x = one x\n")],
        &SourcePath::new("new"),
        vec![analyze("a.ml", "let entry x = two x\n")],
        &options(&[]),
    )
    .unwrap();
    assert_eq!(report.before, "old");
    assert_eq!(report.after, "new");
    assert_eq!(report.trees.len(), 1);
    let shown = ocamltree_project_file(
        &file("a.ml"),
        vec![analyze("a.ml", "let entry x = one x\n")],
        &options(&[]),
    )
    .unwrap();
    assert_eq!(shown.trees.len(), 1);
}

#[test]
fn a_file_that_no_project_analyzes_is_left_to_itself() {
    let none = || Some(FileAnalysis::default());
    let report =
        rustdiff_project_files(&file("a.rs"), none(), &file("b.rs"), none(), &options(&[])).unwrap();
    assert!(report.is_none());
    assert!(rusttree_project_file(&file("a.rs"), none(), &options(&[])).unwrap().is_none());
    let missing = rustdiff_project_paths(
        &SourcePath::new("before"),
        None,
        &SourcePath::new("after"),
        None,
        &options(&[]),
    )
    .unwrap();
    assert_eq!(
        missing.message.as_deref(),
        Some("No rust call changes between before and after.")
    );
}

#[test]
fn functions_with_one_name_are_refused() {
    let twice = || analyze("a.ml", "let entry x = one x\n");
    let error = ocamldiff_paths(
        &SourcePath::new("old"),
        vec![twice(), twice()],
        &SourcePath::new("new"),
        vec![],
        &options(&[]),
    )
    .unwrap_err();
    assert!(error.starts_with("duplicate symbol: ocaml://"), "{error}");
}

#[test]
fn rust_analyses_are_compared() {
    let report = rustdiff_sources(
        "old.rs",
        FileAnalysis::default(),
        "new.rs",
        FileAnalysis::default(),
        &options(&[]),
    )
    .unwrap();
    assert_eq!(report.language, "rust");
    assert_eq!(report.message.as_deref(), Some("No rust call changes between old.rs and new.rs."));
    let paths = rustdiff_paths(
        &SourcePath::new("a/old.rs"),
        FileAnalysis::default(),
        &SourcePath::new("b/new.rs"),
        FileAnalysis::default(),
        &options(&[]),
    )
    .unwrap();
    assert_eq!((paths.before.as_str(), paths.after.as_str()), ("a/old.rs", "b/new.rs"));
}

#[test]
fn sources_that_are_not_there_are_told() {
    let path = SourcePath::new("lib");
    assert_eq!(
        load_error("ocaml", &path, false, 0).as_deref(),
        Some("path does not exist: lib")
    );
    assert_eq!(
        load_error("ocaml", &path, true, 0).as_deref(),
        Some("no ocaml source files found under lib")
    );
    assert_eq!(load_error("ocaml", &path, true, 1), None);
}

#[test]
fn unresolved_calls_are_explained() {
    let report = tree("let run f x = f x\n");
    assert_eq!(report.diagnostics.len(), 1);
    let line = &report.diagnostics[0];
    assert!(line.starts_with("calls.ml:1:14: "), "{line}");
    assert!(line.contains("Unresolved") || line.contains("indirect"), "{line}");
}

#[test]
fn functors_are_opened_for_their_arguments() {
    let source = "module type STORE = sig val save : int -> unit end\n\
        module Postgres = struct let save x = Sql.insert x end\n\
        module Make (S : STORE) = struct let run x = S.save x end\n\
        module App = Make (Postgres)\n\
        let entry x = App.run x\n";
    assert_eq!(
        shown(source),
        "calls.ml\n\n  entry x\n  └─ App.run x\n     └─ Postgres.save x\n        └─ Sql.insert x\n\n  Make.run x\n  └─ S.save x\n     └─ Sql.insert x"
    );
}

#[test]
fn candidates_of_a_parameter_are_double_lines() {
    let source = "let save x = Db.put x\n\
        let apply f x = f x\n\
        let first x = apply save x\n";
    assert_eq!(
        shown(source),
        "calls.ml\n\n  first x\n  └─ apply save x\n     └─ f x\n        ╚═ save x\n           └─ Db.put x"
    );
}

#[test]
fn object_methods_are_unresolved() {
    assert_eq!(
        shown("let run store x = store#save x\n"),
        "calls.ml\n\n  run store x\n  └─ store#save x [unresolved]"
    );
}

#[test]
fn every_depth_tells_of_the_same_entries() {
    let before = "let c x = one x\nlet b x = c x\nlet a x = b x\nlet d x = one x\n";
    let after = "let c x = two x\nlet b x = c x\nlet a x = b x\nlet d x = two x\n";
    let at = |max_depth: usize| {
        let report = compare(before, after, &DiffOptions { entries: Vec::new(), max_depth }).unwrap();
        let entries: Vec<String> =
            report.trees.iter().map(|tree| tree.entry.to_text()).collect();
        (entries, report.message)
    };
    let deep = at(8);
    assert_eq!(deep.0, ["ocaml://a", "ocaml://d"]);
    for depth in 0..4 {
        assert_eq!(at(depth), deep);
    }
}
