//! The languages that are known.
use diffkit::findings::{CompilerFindings, SourceText};
use diffkit::language::{
    backend_for_extension, backend_for_language, builtin_backends, Backend, FileContext,
    LanguageBackend, OcamlFrontend, ProjectCache, ProjectContext, RustBackend,
};
use diffkit::paths::SourcePath;

#[test]
fn registry_routes_extensions_without_engine_language_branches() {
    assert_eq!(
        backend_for_extension(&SourcePath::new("service.RS")).unwrap().language().0,
        "rust"
    );
    assert_eq!(
        backend_for_extension(&SourcePath::new("service.mli")).unwrap().language().0,
        "ocaml"
    );
}

#[test]
fn languages_are_found_by_name_in_any_case() {
    assert_eq!(backend_for_language("OCaml"), Some(Backend::Ocaml));
    assert_eq!(backend_for_language("rust"), Some(Backend::Rust));
    assert_eq!(backend_for_language("zig"), None);
    assert_eq!(backend_for_extension(&SourcePath::new("a.txt")), None);
    assert_eq!(backend_for_extension(&SourcePath::new("Makefile")), None);
    assert_eq!(builtin_backends(), [Backend::Rust, Backend::Ocaml]);
    assert_eq!(RustBackend.extensions(), ["rs"]);
    assert_eq!(OcamlFrontend.extensions(), ["ml", "mli"]);
}

#[test]
fn rust_projects_need_a_driver_and_one_directory_for_each_side() {
    let root = SourcePath::new("/p");
    let driver = SourcePath::new("/bin/diffkit");
    let entries = Vec::new();
    let without = ProjectContext {
        root: &root,
        driver_executable: None,
        entries: &entries,
        cache: None,
    };
    assert_eq!(
        RustBackend.project_session(&without, SourcePath::new("/tmp/s")).unwrap_err(),
        "Rust project analysis requires a driver executable"
    );
    let temporary = ProjectContext {
        root: &root,
        driver_executable: Some(&driver),
        entries: &entries,
        cache: None,
    };
    let session = RustBackend.project_session(&temporary, SourcePath::new("/tmp/s")).unwrap();
    assert_eq!(session.target, SourcePath::new("/tmp/s/target"));
    assert_eq!(session.cache_path(), None);
    for (endpoint, fits) in [("tree", true), ("a/b", false), ("..", false), ("/", false), (".", false)] {
        let kept = ProjectContext {
            root: &root,
            driver_executable: Some(&driver),
            entries: &entries,
            cache: Some(ProjectCache { project_root: &root, endpoint, verbose: true }),
        };
        let session = RustBackend.project_session(&kept, SourcePath::new("/tmp/s"));
        if fits {
            let session = session.unwrap();
            assert_eq!(
                session.cache_path(),
                Some(SourcePath::new("/p/target/diffkit-semantic/tree/.diffkit/analysis-v2.json"))
            );
            assert_eq!(
                session.report_cache(true, "0123456789abcdef", 3, 45).unwrap(),
                "Rust semantic cache hit: tree [0123456789ab] (45 ms; fingerprint 3 ms)"
            );
        } else {
            assert_eq!(
                session.unwrap_err(),
                "Rust semantic cache endpoint must be one path component"
            );
        }
    }
}

#[test]
fn each_language_analyzes_its_own_files_and_projects() {
    let path = SourcePath::new("/p/a");
    let module = vec!["A".to_owned()];
    let file = FileContext { path: &path, module: &module };
    let findings = CompilerFindings { events: None, programs: Vec::new(), known: Vec::new() };
    let names = |backend: Backend, source: &str| {
        backend.analyze_file(&file, source, &findings).map(|analysis| {
            analysis.functions.into_iter().map(|function| function.id.name).collect::<Vec<_>>()
        })
    };
    assert_eq!(names(Backend::Rust, "fn run() {}"), Ok(vec!["run".to_owned()]));
    assert_eq!(names(Backend::Ocaml, "let run x = x"), Ok(vec!["run".to_owned()]));
    assert!(names(Backend::Rust, "let run x = x").is_err());
    assert_eq!(
        names(Backend::Ocaml, "let let ="),
        Err("failed to parse OCaml source: /p/a".to_owned())
    );

    let root = SourcePath::new("/p");
    let entries = Vec::new();
    let project =
        ProjectContext { root: &root, driver_executable: None, entries: &entries, cache: None };
    let sources = vec![SourceText {
        path: SourcePath::new("/p/b.ml"),
        text: "let run x = x".to_owned(),
        events: None,
    }];
    let analysis = Backend::Ocaml.analyze_project(&project, &sources, &findings).unwrap();
    assert_eq!(analysis.functions[0].id.module, ["B"]);
    assert_eq!(
        Backend::Rust.analyze_project(&project, &sources, &findings).unwrap_err(),
        "Rust project analysis requires a driver executable"
    );
}
