//! Graphs, flows, and what is read out of patterns.
use diffkit::graph::ProgramGraph;
use diffkit::files::SourceFile;
use diffkit::findings::CompilerFindings;
use diffkit::language::{FileContext, LanguageBackend, OcamlFrontend};
use diffkit::model::{FileAnalysis, UnresolvedReason};
use diffkit::ocaml::bindings::ocaml_module_package_path;
use diffkit::ocaml::patterns::{
    is_value_identifier, split_ocaml_constructor_application, split_top_level_ocaml,
};
use diffkit::paths::SourcePath;
use diffkit::rust::fingerprint::hash_cache_bytes;
use diffkit::rust::mir::ConcreteType;
use diffkit::rust::provenance::{resolve_symbolic_flow, DynFlow};
use diffkit::rust::session::finish_seeded_project;

fn analyze(source: &str) -> FileAnalysis {
    let path = SourcePath::new("/copy/a.ml");
    let module = Vec::new();
    let findings = CompilerFindings { events: None, programs: Vec::new(), known: Vec::new() };
    OcamlFrontend
        .analyze_file(&FileContext { path: &path, module: &module }, source, &findings)
        .unwrap()
}

fn graph(source: &str) -> ProgramGraph {
    ProgramGraph::from_files(vec![analyze(source)]).unwrap()
}

fn roots(source: &str) -> Vec<String> {
    graph(source).inferred_roots().into_iter().map(|root| root.name).collect()
}

#[test]
fn every_function_is_reached_from_a_root() {
    assert_eq!(roots("let c x = x\nlet b x = c x\nlet a x = b x\n"), ["a"]);
    assert_eq!(roots("let rec a x = b x and b x = a x\nlet c x = x\n"), ["a", "c"]);
    assert!(roots("").is_empty());
}

#[test]
fn entries_are_found_by_any_of_their_names() {
    let graph = graph("module M = struct let f x = x end\nmodule N = struct let f x = x end\nlet g x = x\n");
    assert_eq!(graph.resolve_entry("g").unwrap().unwrap().name, "g");
    assert_eq!(graph.resolve_entry("M.f").unwrap().unwrap().module, ["M"]);
    let symbol = graph.resolve_entry("N.f").unwrap().unwrap();
    assert_eq!(graph.resolve_entry(&symbol.to_text()).unwrap(), Some(symbol));
    assert_eq!(graph.resolve_entry("missing"), Ok(None));
    assert_eq!(
        graph.resolve_entry("f").unwrap_err(),
        "entry `f` is ambiguous: ocaml://M::f, ocaml://N::f"
    );
    assert_eq!(graph.public_symbols().len(), 3);
}

#[test]
fn trees_go_no_deeper_than_asked() {
    let graph = graph("let c x = x\nlet b x = c x\nlet a x = b x\n");
    let entry = graph.resolve_entry("a").unwrap().unwrap();
    let tree = graph.build_call_tree(&entry, 1).unwrap();
    assert_eq!(tree.children.len(), 1);
    assert_eq!(tree.children[0].label.default, "b x");
    assert!(tree.children[0].children.is_empty());
    let deep = graph.build_call_tree(&entry, 8).unwrap();
    assert_eq!(deep.children[0].children[0].label.default, "c x");
}

fn concrete(id: usize, name: &str) -> DynFlow {
    DynFlow::concrete(ConcreteType { id, name: name.to_owned() })
}

#[test]
fn joint_flows_hold_what_both_held() {
    let mut flow = concrete(1, "Postgres");
    assert!(flow.merge(&concrete(2, "S3")));
    assert!(flow.merge(&DynFlow::parameter(0)));
    assert!(!flow.merge(&DynFlow::empty()));
    assert!(!flow.merge(&concrete(1, "Postgres")));
    assert_eq!(flow.concrete.len(), 2);
    assert_eq!(flow.parameters, [0]);
    let resolved = resolve_symbolic_flow(&flow, &vec![concrete(3, "Memory")]);
    assert_eq!(resolved.concrete.len(), 3);
    assert!(resolved.parameters.is_empty());
    assert!(resolved.unresolved_reasons.is_empty());
    let missing = resolve_symbolic_flow(&DynFlow::parameter(4), &Vec::new());
    assert!(missing.concrete.is_empty());
    assert_eq!(missing.unresolved_reasons, [UnresolvedReason::AnalysisLimit]);
}

#[test]
fn seeds_leave_no_trace() {
    let mut analysis = analyze("let __diffkit_seed_0 x = g x\nlet g x = x\n");
    assert_eq!(analysis.functions.len(), 2);
    finish_seeded_project(&mut analysis, &SourcePath::new("/copy"), &SourcePath::new("/real"));
    assert_eq!(analysis.functions.len(), 1);
    assert_eq!(analysis.functions[0].id.name, "g");
    assert_eq!(analysis.functions[0].span.file, SourcePath::new("/real/a.ml"));
    assert_eq!(analysis.source_files, [SourcePath::new("/real/a.ml")]);
}

#[test]
fn framed_bytes_cannot_be_taken_for_others() {
    let mut bytes = Vec::new();
    hash_cache_bytes(&mut bytes, b"ab");
    assert_eq!(bytes, [2, 0, 0, 0, 0, 0, 0, 0, b'a', b'b']);
    let frames = |left: &[u8], right: &[u8]| {
        let mut bytes = Vec::new();
        hash_cache_bytes(&mut bytes, left);
        hash_cache_bytes(&mut bytes, right);
        bytes
    };
    assert_ne!(frames(b"ab", b"c"), frames(b"a", b"bc"));
}

#[test]
fn patterns_are_cut_at_the_top() {
    assert_eq!(split_top_level_ocaml("a, (b, c), d", ','), ["a", "(b, c)", "d"]);
    assert!(is_value_identifier("order'"));
    assert!(!is_value_identifier("Order"));
    let split = |text: &str| split_ocaml_constructor_application(text);
    assert_eq!(split("Some (f x)"), Some(("Some".to_owned(), "(f x)".to_owned())));
    assert_eq!(split("`Left x"), Some(("`Left".to_owned(), "x".to_owned())));
    assert_eq!(split("M.f x"), None);
    assert_eq!(split("Some"), None);
    assert_eq!(
        ocaml_module_package_path("(module Store.\u{e9}t1 : S)"),
        Some(vec!["Store".to_owned(), "\u{e9}t1".to_owned()])
    );
    assert_eq!(ocaml_module_package_path("(module F(X) : S)"), None);
    assert_eq!(ocaml_module_package_path("store"), None);
}

#[test]
fn copies_of_a_graph_answer_alike() {
    let graph = graph("let b x = x\nlet a x = b x\n");
    let copy = graph.clone();
    assert_eq!(copy.inferred_roots(), graph.inferred_roots());
    assert_eq!(copy.source_files(), graph.source_files());
    assert_eq!(copy.functions().len(), 2);
    let none = ProgramGraph::default();
    assert!(none.functions().is_empty());
    assert!(none.facts().is_empty());
    assert!(none.source_files().is_empty());
    assert!(none.inferred_roots().is_empty());
}

#[test]
fn changed_calls_are_opened_and_others_marked() {
    let graph = graph("let c x = x\nlet b x = c x\nlet a x = b x; c x\n");
    let entry = graph.resolve_entry("a").unwrap().unwrap();
    let changed = vec![graph.resolve_entry("c").unwrap().unwrap()];
    let relevant = graph.symbols_reaching(&changed, None);
    let names: Vec<&str> = relevant.iter().map(|symbol| symbol.name.as_str()).collect();
    assert_eq!(names, ["a", "b", "c"]);
    let tree =
        graph.build_diff_call_tree(&entry, 1, None, &relevant, &Vec::new(), "below").unwrap();
    assert_eq!(tree.children.len(), 2);
    let shape = graph.local_call_shape(&entry, None).unwrap();
    assert_eq!(shape.label.default, "");
    assert_eq!(shape.children.len(), 2);
    assert!(shape.children.iter().all(|child| child.children.is_empty()));
}

#[test]
fn calls_with_several_targets_are_looked_up_by_who_leads_to_them() {
    let source = "let one x = x\nlet two x = x\nlet apply f x = f x\n\
        let run flag x = apply (if flag then one else two) x\nlet other x = one x\n";
    let graph = graph(source);
    let names: Vec<String> =
        graph.dispatch_context_symbols(None).into_iter().map(|symbol| symbol.name).collect();
    assert!(names.iter().any(|name| name.starts_with("run")), "{names:?}");
    assert!(!names.iter().any(|name| name == "other"), "{names:?}");
    let file = |path: &str| SourceFile { path: SourcePath::new(path), known: Vec::new() };
    assert!(graph.has_functions_in_file(&file("/copy/a.ml")));
    assert!(!graph.has_functions_in_file(&file("/copy/b.ml")));
}
