//! What is read out of Rust sources.
use diffkit::engine::{rusttree_path, DiffOptions};
use diffkit::files::SourceFile;
use diffkit::findings::{CompilerFindings, SourceText};
use diffkit::language::{FileContext, LanguageBackend, ProjectContext, RustBackend};
use diffkit::model::{CallSyntax, CallTarget, FileAnalysis, SourceSpan, UnresolvedReason};
use diffkit::paths::SourcePath;
use diffkit::render::{render_tree_report_with_options, ColorMode, RenderOptions};
use diffkit::rust::labels::{normalize_instance_display, normalize_instance_key};
use diffkit::rust::project::capture_semantic_project;
use diffkit::rust::semantic::{
    SemanticCall, SemanticCallTarget, SemanticDispatchCandidate, SemanticDynFlow,
    SemanticFunction, SemanticProgram,
};
use diffkit::rust::session::{
    analyze_project_sources, analyze_seeded_file, analyze_semantic_file,
    analyze_semantic_file_with_entries, analyze_semantic_source, keep_analysis,
    read_analysis_cache, seed_source, SemanticStep,
};

fn no_findings() -> CompilerFindings {
    CompilerFindings { events: None, programs: Vec::new(), known: Vec::new() }
}

fn read(source: &str) -> Result<FileAnalysis, String> {
    let path = SourcePath::new("src/lib.rs");
    let module = Vec::new();
    RustBackend.analyze_file(&FileContext { path: &path, module: &module }, source, &no_findings())
}

fn analyze(source: &str) -> FileAnalysis {
    read(source).unwrap()
}

fn text(path: &str, source: &str) -> SourceText {
    SourceText { path: SourcePath::new(path), text: source.to_owned(), events: None }
}

fn labels(analysis: &FileAnalysis, start: &str) -> Vec<String> {
    analysis
        .functions
        .iter()
        .find(|function| function.label.default.starts_with(start))
        .unwrap()
        .calls
        .iter()
        .map(|call| call.label.default.clone())
        .collect()
}

#[test]
fn extracts_functions_methods_calls_and_signature_facts() {
    let source = r#"
            pub trait Store {
                fn save(&mut self, value: Item) {
                    validate(value);
                }
            }

            struct Database;

            impl Store for Database {
                fn save(&mut self, value: Item) {
                    self.prepare();
                    persist(value);
                }
            }
        "#;
    let analysis = analyze(source);

    assert_eq!(analysis.functions.len(), 2);
    let implementation = analysis
        .functions
        .iter()
        .find(|function| function.id.container.as_deref() == Some("Database as Store"))
        .unwrap();
    assert_eq!(implementation.calls.len(), 2);
    assert!(analysis.facts.iter().any(|fact| {
        fact.subject == implementation.id && fact.kind == "receiver" && fact.value == "&mut self"
    }));
    assert!(analysis.facts.iter().any(|fact| {
        fact.subject == implementation.id && fact.kind == "impl-trait" && fact.key == "Store"
    }));
}

#[test]
fn closure_arguments_are_labels_not_serialized_bodies() {
    let source = r#"
            fn run(values: &[String]) {
                values
                    .iter()
                    .filter_map(|value| {
                        parse(value);
                        Some(value)
                    })
                    .collect::<Vec<_>>();
            }
            fn parse(_: &String) {}
        "#;
    let analysis = analyze(source);

    let labels = labels(&analysis, "run(");
    assert_eq!(labels, ["values.iter()", "filter_map<λ#1>()", "collect<Vec<_>>()",]);
    assert!(labels.iter().all(|label| !label.contains("parse(value)")));

    let closure = analysis
        .functions
        .iter()
        .find(|function| function.label.default.starts_with("λ#1("))
        .unwrap();
    assert!(closure.calls.iter().any(|call| call.label.default == "parse(value)"));
}

#[test]
fn signatures_become_labels_and_facts() {
    let analysis = analyze(
        "pub async unsafe fn go<'a, T: Clone + Send, const N: usize>(&(ref a, _): &'a (T, u8), \
         b: [T; N]) -> Vec<T> where T: Copy { b.clone(); a.clone() }",
    );
    let go = &analysis.functions[0];
    assert!(go.public);
    assert_eq!(
        go.label.default,
        "go<'a, T: Clone + Copy + Send, const N: usize>((ref a, _), b)"
    );
    assert_eq!(
        go.label.typed.as_deref(),
        Some("go<'a, T: Clone + Copy + Send, const N: usize>((ref a, _): &'a(T, u8), b: [T; N])")
    );
    let facts: Vec<(&str, &str, &str)> = analysis
        .facts
        .iter()
        .map(|fact| (fact.kind.as_str(), fact.key.as_str(), fact.value.as_str()))
        .collect();
    assert_eq!(
        facts,
        [
            ("generic-parameter", "'a", ""),
            ("generic-parameter", "T", "Clone + Send"),
            ("generic-parameter", "N", "usize"),
            ("parameter", "&(ref a, _)", "&'a(T, u8)"),
            ("parameter", "b", "[T; N]"),
            ("modifier", "async", "true"),
            ("modifier", "unsafe", "true"),
            ("return-type", "return", "Vec<T>"),
        ]
    );
    assert_eq!(analysis.source_files, [SourcePath::new("src/lib.rs")]);
}

#[test]
fn methods_of_generic_parameters_are_symbolic() {
    let analysis = analyze("fn run<S: Store>(store: &S, other: u8) { store.save(other); other.x(); }");
    let calls = &analysis.functions[0].calls;
    assert_eq!(calls[0].label.default, "S::save(other)");
    let CallTarget::Direct(target) = &calls[0].target else {
        panic!("a direct target")
    };
    assert_eq!(target.container.as_deref(), Some("S as Store"));
    assert_eq!(target.name, "save");
    assert!(matches!(calls[1].target, CallTarget::Unresolved));
}

#[test]
fn calls_come_behind_those_in_their_arguments() {
    let analysis = analyze("fn run() { outer(inner(1), (2)); (pick())(3); self.go(); a::b::<u8>(); }");
    assert_eq!(
        labels(&analysis, "run("),
        ["inner(1)", "outer(inner(1), (2))", "pick()", "(pick())(3)", "self.go()", "a::b<u8>()"]
    );
    let calls = &analysis.functions[0].calls;
    assert!(matches!(&calls[3].syntax, CallSyntax::Expression(text) if text == "(pick())"));
    assert!(matches!(&calls[4].syntax, CallSyntax::SelfMethod(method) if method == "go"));
    assert_eq!(calls[0].id.0, "inner@1:17-1:25");
}

#[test]
fn calls_in_macros_wait_for_a_compiler() {
    let analysis = analyze("fn run() { assert!(check(1)); other!(hidden()); println!(\"{}\", shown()); }");
    assert_eq!(labels(&analysis, "run("), ["check(1)", "shown()"]);
    assert!(
        analysis.functions[0]
            .calls
            .iter()
            .all(|call| call.syntax.requires_compiler_confirmation())
    );
}

#[test]
fn bound_and_nested_closures_have_names_of_their_own() {
    let analysis = analyze(
        "fn run() { let twice = |x: u8| { call(|| deep()); x }; apply(twice); apply(|x: u8| x); }",
    );
    let found: Vec<&str> = analysis
        .functions
        .iter()
        .map(|function| function.label.default.as_str())
        .collect();
    assert_eq!(found, ["run()", "λtwice(x:u8)", "λ#2()", "λ#3(x:u8)"]);
    assert_eq!(labels(&analysis, "run("), ["apply<λtwice>()", "apply<λ#3>()"]);
    assert_eq!(labels(&analysis, "λtwice("), ["call<λ#2>()"]);
    let first = &analysis.functions[1].id;
    let third = &analysis.functions[3].id;
    assert_eq!(first.container.as_deref(), Some("run"));
    assert_eq!(
        analysis.functions[2].id.container.as_deref(),
        Some(format!("run::{}", first.name).as_str())
    );
    assert_eq!(third.name, format!("{}-2}}", first.name.trim_end_matches('}')));
    assert!(first.name.starts_with("{lambda:"));
    assert_eq!(first.name.len(), "{lambda:}".len() + 12);
}

#[test]
fn long_arguments_and_closures_in_them_are_cut() {
    let long = format!("fn run() {{ f({}); g((|x| x, 1)); }}", "a + ".repeat(60) + "b");
    let analysis = analyze(&long);
    assert_eq!(labels(&analysis, "run("), ["f(…)", "g((λ#1, 1))"]);
}

#[test]
fn modules_and_inherent_methods_are_named_by_where_they_stand() {
    let analysis = analyze("mod a { mod b { pub struct S; impl S { pub fn go(self) { h() } } } mod c; }");
    assert_eq!(analysis.functions.len(), 1);
    let go = &analysis.functions[0];
    assert_eq!(go.id.module, ["a", "b"]);
    assert_eq!(go.id.container.as_deref(), Some("S"));
    assert_eq!(go.label.default, "S::go(self)");
    assert!(go.public);
}

fn stretch(source: &str, part: &str) -> SourceSpan {
    let start = source.find(part).unwrap();
    let place = |offset: usize| {
        let line = source[..offset].matches('\n').count();
        let column = offset - source[..offset].rfind('\n').map_or(0, |newline| newline + 1);
        (line + 1, column)
    };
    let (start_line, start_column) = place(start);
    let (end_line, end_column) = place(start + part.len());
    SourceSpan {
        file: SourcePath::new("shop.rs"),
        start_line,
        start_column,
        start_byte: None,
        end_line,
        end_column,
        end_byte: None,
    }
}

fn instance(source: &str, name: &str, body: &str, calls: Vec<SemanticCall>) -> SemanticFunction {
    let definition_name = name.split("::<").next().unwrap().to_owned();
    SemanticFunction {
        base_key: normalize_instance_key(name),
        key: normalize_instance_key(name),
        display: normalize_instance_display(name, "shop"),
        definition_name,
        body_span: stretch(source, body),
        calls,
        constructor_spans: Vec::new(),
        constructor_names: Vec::new(),
        parameter_types: Vec::new(),
    }
}

fn direct(source: &str, name: &str, part: &str) -> SemanticCall {
    SemanticCall {
        target: SemanticCallTarget::Direct {
            key: normalize_instance_key(name),
            display: normalize_instance_display(name, "shop"),
        },
        definition_name: name.split("::<").next().unwrap().to_owned(),
        span: stretch(source, part),
        argument_types: Vec::new(),
        argument_flows: Vec::new(),
    }
}

fn shown(source: &str, functions: Vec<SemanticFunction>) -> String {
    let path = SourcePath::new("shop.rs");
    let program = SemanticProgram { crate_name: "shop".to_owned(), functions };
    let analysis = analyze_semantic_file(&path, source, program, &Vec::new()).unwrap();
    let file = SourceFile { path, known: Vec::new() };
    let options = DiffOptions { entries: Vec::new(), max_depth: 8 };
    let report = rusttree_path(&file, analysis, &options).unwrap();
    let plain = RenderOptions { show_types: false, color: ColorMode::Plain };
    render_tree_report_with_options(&report, &plain)
}

const SHOP: &str = "pub fn entry(order: u64) {
    run(&Postgres, order);
}

fn run<S: Store>(storage: &S, order: u64) {
    storage.save(order);
}

struct Postgres;

trait Store {
    fn save(&self, order: u64);
}

impl Store for Postgres {
    fn save(&self, order: u64) {
        insert(order);
    }
}

fn insert(_order: u64) {}
";

#[test]
fn instances_of_generic_functions_are_connected() {
    let functions = vec![
        instance(
            SHOP,
            "entry",
            "pub fn entry(order: u64) {\n    run(&Postgres, order);\n}",
            vec![direct(SHOP, "run::<Postgres>", "run(&Postgres, order)")],
        ),
        instance(
            SHOP,
            "run::<Postgres>",
            "fn run<S: Store>(storage: &S, order: u64) {\n    storage.save(order);\n}",
            vec![direct(SHOP, "<Postgres as Store>::save", "storage.save(order)")],
        ),
        instance(
            SHOP,
            "<Postgres as Store>::save",
            "fn save(&self, order: u64) {\n        insert(order);\n    }",
            vec![direct(SHOP, "insert", "insert(order)")],
        ),
        instance(SHOP, "insert", "fn insert(_order: u64) {}", Vec::new()),
    ];
    assert_eq!(
        shown(SHOP, functions),
        "shop.rs\n\n  entry(order)\n  └─ run<Postgres>(&Postgres, order)\n     └─ Postgres::save(order)\n        └─ insert(order)"
    );
}

const DYNAMIC: &str = "pub fn run(storage: &dyn Store, order: u64) {
    storage.save(order);
}

struct Postgres;

trait Store {
    fn save(&self, order: u64);
}

impl Store for Postgres {
    fn save(&self, order: u64) {
        insert(order);
    }
}

fn insert(_order: u64) {}
";

fn dynamic(open: bool, reached: &[&str]) -> Vec<SemanticFunction> {
    let candidates = reached
        .iter()
        .map(|name| SemanticDispatchCandidate {
            key: normalize_instance_key(name),
            display: normalize_instance_display(name, "shop"),
        })
        .collect();
    let reasons = if open { vec![UnresolvedReason::OpaqueInput] } else { Vec::new() };
    let call = SemanticCall {
        target: SemanticCallTarget::Dynamic {
            key: normalize_instance_key("<dyn Store as Store>::save"),
            display: normalize_instance_display("<dyn Store as Store>::save", "shop"),
            candidates,
            open,
            unresolved_reasons: reasons,
            receiver_flow: SemanticDynFlow {
                concrete_types: Vec::new(),
                parameters: Vec::new(),
                unresolved_reasons: Vec::new(),
            },
        },
        definition_name: "Store::save".to_owned(),
        span: stretch(DYNAMIC, "storage.save(order)"),
        argument_types: Vec::new(),
        argument_flows: Vec::new(),
    };
    vec![
        instance(
            DYNAMIC,
            "run",
            "pub fn run(storage: &dyn Store, order: u64) {\n    storage.save(order);\n}",
            vec![call],
        ),
        instance(
            DYNAMIC,
            "<Postgres as Store>::save",
            "fn save(&self, order: u64) {\n        insert(order);\n    }",
            vec![direct(DYNAMIC, "insert", "insert(order)")],
        ),
        instance(DYNAMIC, "insert", "fn insert(_order: u64) {}", Vec::new()),
    ]
}

#[test]
fn dynamic_calls_show_their_candidates() {
    let save = "<Postgres as Store>::save";
    assert_eq!(
        shown(DYNAMIC, dynamic(false, &[save])),
        "shop.rs\n\n  run(storage, order)\n  └─ dyn Store::save(order)\n     ╚═ Postgres::save(order)\n        └─ insert(order)"
    );
    assert_eq!(
        shown(DYNAMIC, dynamic(true, &[save])),
        "shop.rs\n\n  run(storage, order)\n  └─ dyn Store::save(order) [partial]\n     ╠═ Postgres::save(order)\n     ║  └─ insert(order)\n     ╚═ … unresolved targets"
    );
    let unresolved = shown(DYNAMIC, dynamic(true, &[]));
    assert!(
        unresolved.contains("  run(storage, order)\n  └─ dyn Store::save(order) [unresolved]"),
        "{unresolved}"
    );
}

#[test]
fn missing_generic_entries_are_seeded_and_taken_away_again() {
    let path = SourcePath::new("shop.rs");
    let none = || SemanticProgram { crate_name: "shop".to_owned(), functions: Vec::new() };
    let entries = vec!["run<Postgres>".to_owned()];
    let step = analyze_semantic_file_with_entries(&path, SHOP, none(), &entries, &Vec::new()).unwrap();
    let SemanticStep::Seed(seeded) = step else {
        panic!("nothing is seeded");
    };
    assert!(seeded.starts_with(SHOP), "{seeded}");
    assert!(seeded.contains("run::<Postgres>"), "{seeded}");
    assert_eq!(seed_source(SHOP, &entries), Ok(Some(seeded)));
    let plain = vec!["entry".to_owned()];
    let step = analyze_semantic_file_with_entries(&path, SHOP, none(), &plain, &Vec::new()).unwrap();
    assert!(matches!(step, SemanticStep::Done(_)));
}

#[test]
fn kept_analyses_are_read_back_where_the_project_lies_now() {
    let sources = vec![text("/old/src/shop.rs", SHOP)];
    let analyze = || analyze_project_sources(&SourcePath::new("/old"), &sources).unwrap();
    assert_eq!(analyze().functions[0].id.module, ["shop"]);
    let keep = || keep_analysis("print".to_owned(), &SourcePath::new("/old"), analyze());
    let now = SourcePath::new("/new");
    let read = read_analysis_cache(keep(), "print", &now).unwrap();
    assert_eq!(read.source_files, [SourcePath::new("/new/src/shop.rs")]);
    assert_eq!(read.functions.len(), analyze().functions.len());
    assert_eq!(read.functions[0].span.file, SourcePath::new("/new/src/shop.rs"));
    assert!(read_analysis_cache(keep(), "other", &now).is_none());
    let mut old = keep();
    old.schema -= 1;
    assert!(read_analysis_cache(old, "print", &now).is_none());
}

#[test]
fn targets_of_a_project_are_put_together_once() {
    let sources = vec![text("shop.rs", SHOP)];
    let target = || SemanticProgram {
        crate_name: "shop".to_owned(),
        functions: vec![instance(SHOP, "insert", "fn insert(_order: u64) {}", Vec::new())],
    };
    let syntax = || analyze_project_sources(&SourcePath::new(""), &sources).unwrap();
    let analysis = capture_semantic_project(&vec![target(), target()], syntax(), &Vec::new()).unwrap();
    let named =
        analysis.functions.iter().filter(|function| function.id.name == "insert").count();
    assert_eq!(named, 1);
    assert!(capture_semantic_project(&Vec::new(), syntax(), &Vec::new()).is_none());
}

#[test]
fn recursion_is_drawn_as_a_way_back() {
    let source = "pub fn a() {\n    b()\n}\n\nfn b() {\n    a()\n}\n";
    let functions = vec![
        instance(source, "a", "pub fn a() {\n    b()\n}", vec![direct(source, "b", "b()")]),
        instance(source, "b", "fn b() {\n    a()\n}", vec![SemanticCall {
            span: stretch(source, "    a()\n}"),
            ..direct(source, "a", "a()")
        }]),
    ];
    assert_eq!(
        shown(source, functions),
        "shop.rs\n\n  a() ◀───────┐\n  └─ b()      │\n     └─ a() ──┘"
    );
}

const CLOSURES: &str = "pub fn run() {
    apply(|| db::save());
    apply(|| cache::save());
}

fn apply<F: Fn()>(f: F) {
    f();
}

mod db {
    pub fn save() {}
}

mod cache {
    pub fn save() {}
}
";

#[test]
fn closures_are_instances_of_their_own() {
    let first = "{closure@shop.rs:2:11: 2:13}";
    let second = "{closure@shop.rs:3:11: 3:13}";
    let apply = |closure: &str| format!("apply::<{closure}>");
    let body = "fn apply<F: Fn()>(f: F) {\n    f();\n}";
    let functions = vec![
        instance(
            CLOSURES,
            "run",
            "pub fn run() {\n    apply(|| db::save());\n    apply(|| cache::save());\n}",
            vec![
                direct(CLOSURES, &apply(first), "apply(|| db::save())"),
                direct(CLOSURES, &apply(second), "apply(|| cache::save())"),
            ],
        ),
        instance(CLOSURES, &apply(first), body, vec![direct(CLOSURES, first, "f()")]),
        instance(CLOSURES, &apply(second), body, vec![direct(CLOSURES, second, "f()")]),
        instance(CLOSURES, first, "|| db::save()", vec![direct(CLOSURES, "db::save", "db::save()")]),
        instance(
            CLOSURES,
            second,
            "|| cache::save()",
            vec![direct(CLOSURES, "cache::save", "cache::save()")],
        ),
        instance(CLOSURES, "db::save", "pub fn save() {}", Vec::new()),
    ];
    assert_eq!(
        shown(CLOSURES, functions),
        "shop.rs\n\n  run()\n  ├─ apply<λ#1>()\n  │  └─ λ#1()\n  │     └─ db::save()\n  └─ apply<λ#2>()\n     └─ λ#2()\n        └─ cache::save()"
    );
}

#[test]
fn other_closures_do_not_rename_a_closure() {
    let ids = |source: &str| {
        analyze(source)
            .functions
            .into_iter()
            .filter(|function| function.id.name.starts_with("{lambda:"))
            .map(|function| function.id.to_text())
            .collect::<Vec<_>>()
    };
    let alone = ids("fn run() { apply(|x| save(x)); }");
    let beside = ids("fn run() { apply(|left, right| log(left)); apply(|x| save(x)); }");
    assert_eq!(alone.len(), 1);
    assert_eq!(beside.len(), 2);
    assert!(beside.contains(&alone[0]), "{alone:?} {beside:?}");
}

#[test]
fn calls_through_function_pointers_are_indirect() {
    let source = "pub fn run(callback: fn(u64), value: u64) {\n    callback(value);\n}\n";
    let call = SemanticCall {
        target: SemanticCallTarget::Indirect { signature: "fn(u64)".to_owned() },
        definition_name: String::new(),
        span: stretch(source, "callback(value)"),
        argument_types: Vec::new(),
        argument_flows: Vec::new(),
    };
    let functions = vec![instance(source, "run", source.trim_end(), vec![call])];
    assert_eq!(
        shown(source, functions),
        "shop.rs\n\n  run(callback, value)\n  └─ callback(value) [indirect]"
    );
}

#[test]
fn named_closures_keep_their_names() {
    let source = "pub fn run(order: u64) {\n    let persist = |value| write(value);\n    persist(order);\n}\n\nfn write(_value: u64) {}\n";
    let functions = vec![
        instance(
            source,
            "run",
            "pub fn run(order: u64) {\n    let persist = |value| write(value);\n    persist(order);\n}",
            vec![direct(source, "run::{closure#0}", "persist(order)")],
        ),
        instance(
            source,
            "run::{closure#0}",
            "|value| write(value)",
            vec![direct(source, "write", "write(value)")],
        ),
        instance(source, "write", "fn write(_value: u64) {}", Vec::new()),
    ];
    assert_eq!(
        shown(source, functions),
        "shop.rs\n\n  run(order)\n  └─ λpersist(order)\n     └─ write(value)"
    );
}

#[test]
fn generic_functions_without_instances_stay_open() {
    let source = "pub fn run<T: Store>(storage: &T) {\n    storage.save();\n}\n\npub trait Store {\n    fn save(&self);\n}\n";
    assert_eq!(
        shown(source, Vec::new()),
        "shop.rs\n\n  run<T: Store>(storage)\n  └─ T::save()"
    );
}

#[test]
fn what_is_no_rust_source_is_refused() {
    let refused = "fn run( {";
    let message = read(refused).unwrap_err();
    assert_eq!(read("fn run() {}").unwrap().functions.len(), 1);
    let path = SourcePath::new("shop.rs");
    let none = || SemanticProgram { crate_name: "shop".to_owned(), functions: Vec::new() };
    let entries = vec!["run<Postgres>".to_owned()];
    assert_eq!(seed_source(refused, &entries).unwrap_err(), message);
    assert_eq!(
        analyze_semantic_file(&path, refused, none(), &Vec::new()).unwrap_err(),
        message
    );
    assert_eq!(
        analyze_semantic_source(&path, refused, none(), &entries, &Vec::new()).err(),
        Some(message.clone())
    );
    assert_eq!(
        analyze_seeded_file(&path, refused, &path, none(), &Vec::new()).unwrap_err(),
        message
    );
    let sources = vec![text("/a/src/lib.rs", SHOP), text("/a/src/x.rs", refused)];
    assert_eq!(
        analyze_project_sources(&SourcePath::new("/a"), &sources).unwrap_err(),
        message
    );
}

#[test]
fn nested_functions_are_not_entered() {
    let analysis = analyze("fn run() { fn inner() { hidden(); } inner(); shown(); }");
    assert_eq!(analysis.functions.len(), 1);
    assert_eq!(labels(&analysis, "run("), ["inner()", "shown()"]);
}

#[test]
fn default_methods_are_as_visible_as_their_trait() {
    let analysis = analyze(
        "pub trait Open { const SIZE: u8; type Item; fn a(&self) { x() } fn b(&self); } \
         pub(crate) trait Shut { fn c(&self) { y() } }",
    );
    let found: Vec<(&str, bool)> = analysis
        .functions
        .iter()
        .map(|function| (function.id.name.as_str(), function.public))
        .collect();
    assert_eq!(found, [("a", true), ("c", false)]);
}

#[test]
fn only_methods_of_an_impl_are_functions() {
    let analysis = analyze(
        "impl Shop { const SIZE: u8 = size(); type Item = u8; pub fn a(&self) { x() } \
         pub(crate) fn b(&self) {} fn c() {} }",
    );
    let found: Vec<(&str, bool)> = analysis
        .functions
        .iter()
        .map(|function| (function.id.name.as_str(), function.public))
        .collect();
    assert_eq!(found, [("a", true), ("b", false), ("c", false)]);
}

#[test]
fn macros_are_known_by_the_last_name_of_their_path() {
    let analysis = analyze(
        "fn run() { std::assert!(check(1)); log::trace!(hidden()); assert!(a => b()); vec![made()]; }",
    );
    assert_eq!(labels(&analysis, "run("), ["check(1)", "made()"]);
}

#[test]
fn closures_in_nested_arguments_are_named_from_outside_in() {
    let analysis = analyze("fn run() { go([wrap(|x| { inner(|| y()); x })]); }");
    let found: Vec<&str> = analysis
        .functions
        .iter()
        .map(|function| function.label.default.as_str())
        .collect();
    assert_eq!(found, ["run()", "λ#1(x)", "λ#2()"]);
    assert_eq!(labels(&analysis, "run("), ["wrap<λ#1>()", "go([wrap(λ#1)])"]);
    assert_eq!(labels(&analysis, "λ#1("), ["inner<λ#2>()"]);
}

#[test]
fn seeds_are_gone_from_what_is_shown() {
    let path = SourcePath::new("shop.rs");
    let copy = SourcePath::new("/tmp/copy/shop.rs");
    let entries = vec!["run<Postgres>".to_owned()];
    let seeded = seed_source(SHOP, &entries).unwrap().unwrap();
    let mut run = instance(
        SHOP,
        "run::<Postgres>",
        "fn run<S: Store>(storage: &S, order: u64) {\n    storage.save(order);\n}",
        vec![direct(SHOP, "<Postgres as Store>::save", "storage.save(order)")],
    );
    run.body_span.file = copy.clone();
    run.calls[0].span.file = copy.clone();
    let program = SemanticProgram { crate_name: "shop".to_owned(), functions: vec![run] };
    assert!(seeded.len() > SHOP.len());
    let analysis = analyze_seeded_file(&path, SHOP, &copy, program, &Vec::new()).unwrap();
    assert!(analysis.functions.iter().all(|function| function.span.file == path));
    assert!(analysis.functions.iter().any(|function| function.label.default.starts_with("run<Postgres>")));
    assert!(analysis.functions.iter().all(|function| !function.id.name.contains("seed")));
}

#[test]
fn projects_need_a_driver_and_targets() {
    let root = SourcePath::new("/shop");
    let driver = SourcePath::new("/bin/diffkit");
    let entries = Vec::new();
    let context = |driver_executable| ProjectContext {
        root: &root,
        driver_executable,
        entries: &entries,
        cache: None,
    };
    let sources = vec![text("shop.rs", SHOP)];
    assert_eq!(
        RustBackend.analyze_project(&context(None), &sources, &no_findings()).unwrap_err(),
        "Rust project analysis requires a driver executable"
    );
    assert_eq!(
        RustBackend.analyze_project(&context(Some(&driver)), &sources, &no_findings()).unwrap_err(),
        "Cargo produced no Rust semantic targets under /shop"
    );
    let target = SemanticProgram {
        crate_name: "shop".to_owned(),
        functions: vec![instance(SHOP, "insert", "fn insert(_order: u64) {}", Vec::new())],
    };
    let findings = CompilerFindings { programs: vec![target], ..no_findings() };
    let analysis =
        RustBackend.analyze_project(&context(Some(&driver)), &sources, &findings).unwrap();
    assert_eq!(
        analysis.functions.iter().filter(|function| function.id.name == "insert").count(),
        1
    );
}
