//! What is read out of OCaml sources.
use diffkit::findings::{CompilerFindings, SourceText};
use diffkit::language::{FileContext, LanguageBackend, OcamlFrontend};
use diffkit::model::{CallTarget, DispatchResolution, FileAnalysis, SourceSpan};
use diffkit::ocaml::analyze::{analyze_ocaml_syntax, analyze_source_project, OcamlError};
use diffkit::ocaml::events::{
    apply_typed_events, dune_source_path, event_source_candidates, parse_typed_events, EventError,
    TypedCallEvent,
};
use diffkit::ocaml::labels::{ocaml_module_name, split_ocaml_function_type};
use diffkit::paths::SourcePath;

fn analyze(name: &str, source: &str) -> FileAnalysis {
    let path = SourcePath::new(name);
    let module = Vec::new();
    let findings = CompilerFindings { events: None, programs: Vec::new(), known: Vec::new() };
    OcamlFrontend
        .analyze_file(&FileContext { path: &path, module: &module }, source, &findings)
        .unwrap()
}

fn syntax(name: &str, source: &str) -> FileAnalysis {
    analyze_ocaml_syntax(&SourcePath::new(name), &Vec::new(), source).unwrap()
}

#[test]
fn extracts_module_functions_and_native_call_labels() {
    let source = r#"
        module Postgres = struct
          let save order =
            Sql.begin_tx order;
            Sql.insert order;
            Sql.commit order
        end
    "#;
    let analysis = analyze("after.ml", source);
    let save = analysis
        .functions
        .iter()
        .find(|function| function.id.module == ["Postgres"] && function.id.name == "save")
        .unwrap();
    assert_eq!(save.label.default, "Postgres.save order");
    assert_eq!(
        save.calls
            .iter()
            .map(|call| call.label.default.as_str())
            .collect::<Vec<_>>(),
        ["Sql.begin_tx order", "Sql.insert order", "Sql.commit order"]
    );
}

#[test]
fn keeps_labeled_optional_and_unit_application_syntax() {
    let source = r#"
            let run order =
              charge ~currency:"KRW" order 100;
              find ?limit:None ~tenant:"acme" order;
              commit ()
        "#;
    let analysis = analyze("calls.ml", source);
    let calls = &analysis.functions[0].calls;
    assert_eq!(calls[0].label.default, "charge ~currency:\"KRW\" order 100");
    assert_eq!(calls[1].label.default, "find ?limit:None ~tenant:\"acme\" order");
    assert_eq!(calls[2].label.default, "commit ()");
}

#[test]
fn separates_ocaml_parameter_types_from_the_default_label() {
    let source = "let run (order : Order.t) = validate order";
    let analysis = analyze("typed.ml", source);
    let label = &analysis.functions[0].label;
    assert_eq!(label.default, "run order");
    assert_eq!(label.typed.as_deref(), Some("run (order : Order.t)"));
}

#[test]
fn source_project_resolves_calls_across_ocaml_modules() {
    let root = SourcePath::new("/project");
    let sources = vec![
        SourceText {
            path: SourcePath::new("/project/a.ml"),
            text: "let entry value = B.save value\n".to_owned(),
            events: None,
        },
        SourceText {
            path: SourcePath::new("/project/b.ml"),
            text: "let save value = value\n".to_owned(),
            events: None,
        },
    ];
    let analysis = analyze_source_project(&root, &sources, &Vec::new()).unwrap();
    let entry = analysis
        .functions
        .iter()
        .find(|function| function.id.module == ["A"] && function.id.name == "entry")
        .unwrap();
    assert!(matches!(
        &entry.calls[0].target,
        CallTarget::Direct(target) if target.module == ["B"] && target.name == "save"
    ));
}

#[test]
fn maps_dune_build_locations_back_to_source_files() {
    let directory = SourcePath::new("/project");
    let existing = vec![directory.join("src/service.ml")];
    let mapped = dune_source_path(
        &directory,
        &directory.join("_build/default/src/service.ml"),
        &existing,
    );
    assert_eq!(mapped, Some(directory.join("src/service.ml")));
    assert_eq!(
        dune_source_path(&directory, &directory.join("_build/default/src/other.ml"), &existing),
        None
    );
}

#[test]
fn splits_curried_inferred_types_without_splitting_nested_arrows() {
    assert_eq!(
        split_ocaml_function_type("('a -> 'b) -> label:int -> 'a -> 'b"),
        ["('a -> 'b)", "label:int", "'a", "'b"]
    );
}

#[test]
fn typedtree_identifiers_do_not_turn_callable_parameters_into_static_functions() {
    let source = "let apply callback value = callback value";
    let mut analysis = syntax("callback.ml", source);
    let span = analysis.functions[0].calls[0].span.clone();
    apply_typed_events(
        &mut analysis,
        &Vec::new(),
        &vec![TypedCallEvent {
            target: Some("callback".to_owned()),
            signature: Some("'a -> 'b".to_owned()),
            span,
        }],
    );

    assert!(matches!(analysis.functions[0].calls[0].target, CallTarget::Unresolved));
}

#[test]
fn one_typedtree_event_cannot_be_reused_by_two_source_calls() {
    let source = "let run value = outer (inner value)";
    let mut analysis = syntax("nested.ml", source);
    let span = analysis.functions[0]
        .calls
        .iter()
        .find(|call| call.label.default == "inner value")
        .unwrap()
        .span
        .clone();
    apply_typed_events(
        &mut analysis,
        &Vec::new(),
        &vec![TypedCallEvent { target: Some("Inner.target".to_owned()), signature: None, span }],
    );

    assert_eq!(
        analysis.functions[0]
            .calls
            .iter()
            .filter(|call| matches!(call.target, CallTarget::Direct(_)))
            .count(),
        1
    );
}

#[test]
fn extracts_functions_declared_inside_a_functor_body() {
    let source = r#"
            module Make (Store : sig val save : int -> unit end) = struct
              let run value = Store.save value
            end
        "#;
    let analysis = analyze("functor.ml", source);
    assert!(
        analysis
            .functions
            .iter()
            .any(|function| { function.id.module == ["Make"] && function.id.name == "run" })
    );
}

#[test]
fn a_broken_source_is_refused() {
    let error = analyze_ocaml_syntax(&SourcePath::new("a.ml"), &Vec::new(), "let let =").unwrap_err();
    assert!(matches!(&error, OcamlError::Syntax(path) if *path == SourcePath::new("a.ml")));
    assert_eq!(error.to_text(), "failed to parse OCaml source: a.ml");
    assert_eq!(OcamlError::NoTree.to_text(), "OCaml parser returned no syntax tree");
}

#[test]
fn events_are_read_line_by_line() {
    let root = SourcePath::new("/p");
    let line = "direct\tB.save\t_build/default/a.ml\t1\t4\t2\t9\tint -> int\n\nother\t\t/x/b.ml\t1\t0\t1\t3\t\n";
    assert_eq!(event_source_candidates(&root, line), [SourcePath::new("/p/a.ml")]);
    let events = parse_typed_events(&root, line, &vec![SourcePath::new("/p/a.ml")]).unwrap();
    assert_eq!(events.len(), 2);
    assert_eq!(events[0].target.as_deref(), Some("B.save"));
    assert_eq!(events[0].signature.as_deref(), Some("int -> int"));
    assert_eq!(events[0].span.file, SourcePath::new("/p/a.ml"));
    assert_eq!((events[0].span.start_line, events[0].span.start_column), (1, 4));
    assert_eq!((events[0].span.end_line, events[0].span.end_column), (2, 9));
    assert_eq!(events[1].target, None);
    assert_eq!(events[1].signature, None);
    assert_eq!(events[1].span.file, SourcePath::new("/x/b.ml"));
    let error = parse_typed_events(&root, "only\ttwo", &Vec::new()).unwrap_err();
    assert!(matches!(error, EventError::Invalid(_)));
    assert_eq!(error.to_text(), "invalid compiler-libs event: only\ttwo");
    assert!(matches!(
        parse_typed_events(&root, "direct\tf\ta.ml\tx\t4\t2\t9\t", &Vec::new()),
        Err(EventError::Number(_))
    ));
}

#[test]
fn module_names_begin_with_a_capital() {
    assert_eq!(ocaml_module_name("service"), "Service");
    assert_eq!(ocaml_module_name("éa"), "Éa");
}

#[test]
fn callable_parameters_are_followed_to_what_is_passed() {
    let source = "let save x = x\nlet apply f x = f x\nlet run x = apply save x\n";
    let analysis = analyze("flow.ml", source);
    let dynamic: Vec<_> = analysis
        .functions
        .iter()
        .flat_map(|function| function.calls.iter())
        .filter_map(|call| match &call.target {
            CallTarget::Dynamic { candidates, resolution, .. } => Some((candidates, resolution)),
            _ => None,
        })
        .collect();
    assert!(dynamic.iter().any(|(candidates, resolution)| {
        candidates.iter().any(|candidate| candidate.target.name == "save")
            && **resolution == DispatchResolution::Complete
    }));
}

#[test]
fn shadowed_bindings_are_told_apart() {
    let source = "let f x = a x\nlet f x = b x\nlet g x = f x\n";
    let analysis = analyze("shadow.ml", source);
    let bindings: Vec<_> = analysis
        .functions
        .iter()
        .filter(|function| function.label.default == "f x")
        .collect();
    assert_eq!(bindings.len(), 2);
    assert_ne!(bindings[0].id, bindings[1].id);
    let g = analysis.functions.iter().find(|function| function.id.name == "g").unwrap();
    assert!(matches!(&g.calls[0].target, CallTarget::Direct(target) if *target == bindings[1].id));
}

#[test]
fn spans_count_lines_from_one() {
    let analysis = syntax("a.ml", "let f x =\n  g x\n");
    let span: &SourceSpan = &analysis.functions[0].calls[0].span;
    assert_eq!((span.start_line, span.start_column, span.end_line, span.end_column), (2, 2, 2, 5));
}
