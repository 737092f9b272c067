//! How rustc names things, and what is made of it.
use diffkit::model::SourceSpan;
use diffkit::paths::SourcePath;
use diffkit::rust::labels::{normalize_instance_key, normalize_type_display};
use diffkit::rust::raw::{DispatchTable, RawSemanticFunction};
use diffkit::rust::remap::{append_entry_seeds, rust_module_path, SeedableFunction};
use diffkit::rust::specialize::specialize_semantic_functions;
use diffkit::rust::stable::{stable_instance_name, ClosureType, GenericArgument};

#[test]
fn specialization_consumes_duplicate_normalized_instances() {
    let span = SourceSpan {
        file: SourcePath::new("src/lib.rs"),
        start_line: 1,
        start_column: 1,
        start_byte: None,
        end_line: 1,
        end_column: 1,
        end_byte: None,
    };
    let function = || RawSemanticFunction {
        key: "crate::duplicate".to_owned(),
        display: "duplicate".to_owned(),
        definition_name: "crate::duplicate".to_owned(),
        body_span: span.clone(),
        calls: Vec::new(),
        constructor_spans: Vec::new(),
        constructor_names: Vec::new(),
        parameter_types: Vec::new(),
    };
    let table = DispatchTable {
        crate_name: "crate".to_owned(),
        entries: Vec::new(),
        observed: Vec::new(),
    };

    let specialized = specialize_semantic_functions(&vec![function(), function()], &table);

    assert_eq!(specialized.len(), 1);
    assert_eq!(specialized[0].key, "crate::duplicate");
}

#[test]
fn closure_locations_survive_until_the_source_lambda_mapping() {
    assert_eq!(
        normalize_instance_key("core::result::Result::map::<{closure@src/lib.rs:10:4: 10:12}>"),
        "core::result::Result::map<{closure@src/lib.rs:10:4: 10:12}>"
    );
    assert_eq!(
        normalize_type_display("diffkit::Runner<{async block@src/lib.rs:20:8: 24:9}>", "diffkit"),
        "Runner<{async block}>"
    );
}

#[test]
fn instances_are_named_by_the_closures_they_are_made_for() {
    let closure = |name: &str| GenericArgument::Type {
        rendered: "{closure@src/lib.rs:1:2: 1:9}".to_owned(),
        closure: Some(ClosureType { definition_name: name.to_owned(), arguments: Vec::new() }),
    };
    let name = "map::<{closure@src/lib.rs:1:2: 1:9}>";
    let plain = stable_instance_name("map::<u8>", &vec![GenericArgument::Other]);
    assert_eq!(plain, "map::<u8>");
    let first = stable_instance_name(name, &vec![closure("krate::run::{closure#0}")]);
    assert!(!first.contains("src/lib.rs"));
    assert!(first.contains("[[diffkit-closure-env:("));
    assert!(first.ends_with("())]]"));
    let other = stable_instance_name(name, &vec![closure("krate::walk::{closure#0}")]);
    assert_ne!(first, other);
    let typed = stable_instance_name(
        "map::<u8>",
        &vec![
            closure("krate::run::{closure#0}"),
            GenericArgument::Type { rendered: "u8".to_owned(), closure: None },
        ],
    );
    // The digest of `u8`.
    assert!(typed.contains(",t:"));
}

#[test]
fn seeds_call_the_one_function_that_an_entry_names() {
    let functions = vec![
        SeedableFunction {
            name: "run".to_owned(),
            qualified_name: "a::run".to_owned(),
            argument_count: 2,
        },
        SeedableFunction {
            name: "go".to_owned(),
            qualified_name: "go".to_owned(),
            argument_count: 0,
        },
    ];
    let entries = |text: &str| vec![text.to_owned()];
    assert_eq!(
        append_entry_seeds("//", &functions, &entries("crate::a.run::<u8, S>")).unwrap(),
        "//\n#[doc(hidden)]\n#[allow(dead_code, invalid_value, unused_unsafe)]\n\
         fn __diffkit_seed_0() {\n    unsafe { let _ = a::run::<u8, S>(\
         ::core::mem::MaybeUninit::uninit().assume_init(), \
         ::core::mem::MaybeUninit::uninit().assume_init()); }\n}\n"
    );
    assert_eq!(append_entry_seeds("//", &functions, &entries("b::run<u8>")), None);
    assert_eq!(append_entry_seeds("//", &functions, &entries("run")), None);
    assert!(append_entry_seeds("//", &functions, &entries("go<u8>")).unwrap().contains("go::<u8>()"));
}

#[test]
fn modules_are_named_by_their_files() {
    let root = SourcePath::new("/p");
    for (file, module) in [
        ("/p/src/lib.rs", vec![]),
        ("/p/src/a/mod.rs", vec!["a"]),
        ("/p/src/a/b.rs", vec!["a", "b"]),
        ("/p/tests/cli.rs", vec!["tests", "cli"]),
        ("/q/x.rs", vec!["/", "q", "x"]),
    ] {
        assert_eq!(rust_module_path(&root, &SourcePath::new(file)), module);
    }
}
