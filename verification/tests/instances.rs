//! What rustc says of a crate, and what is made of it.
use diffkit::digest::short_digest_text;
use diffkit::model::{SourceSpan, UnresolvedReason};
use diffkit::paths::SourcePath;
use diffkit::rust::coercions::{
    collect_adt_constructor_names, collect_observed_vtables, dyn_coercion, dynamic_principal,
    resolve_observed_dispatch_candidate, Coercion, ObservedVtable, Principal, TypeKind, TypeTree,
    VtableMethod,
};
use diffkit::rust::collect::collect_instances;
use diffkit::rust::fingerprint::{
    rust_build_environment_key, semantic_cache_fingerprint, CommandIdentity, EnvironmentVariable,
    ProjectInput, ProjectInputs,
};
use diffkit::rust::instances::{CallSite, InstanceBody};
use diffkit::rust::mir::{
    AggregateKind, Assignment, MirBlock, CallTerminator, Callee, ConcreteType, MirBody, MirType,
    Operand, OperandValue, Place, Projection, Rvalue, Terminator,
};
use diffkit::rust::raw::{DispatchEntry, DispatchTable, ObservedDispatch};
use diffkit::rust::semantic::{SemanticCallTarget, SemanticFunction, SemanticProgram};
use diffkit::rust::session::{
    failure_message, project_seeds, require_standalone, CompilerEnd, RustProjectSession,
};
use diffkit::rust::stable::{stable_instance_name, ClosureType, GenericArgument};
use diffkit::rust::worklist::{
    collect_instance_bodies, instance_body_is_in_analysis_root, take_instance, visit_candidates,
    visit_instance, ExpansionHistory, FoundBlock, FoundCall, FoundInstance,
};

fn path(text: &str) -> SourcePath {
    SourcePath::new(text)
}

fn span(line: usize) -> SourceSpan {
    SourceSpan {
        file: path("/p/src/lib.rs"),
        start_line: line,
        start_column: 0,
        start_byte: None,
        end_line: line,
        end_column: 10,
        end_byte: None,
    }
}

fn ty(id: usize, text: &str) -> MirType {
    MirType {
        id,
        text: text.to_owned(),
        mutable_reference: text.starts_with("&mut "),
        word: text == "usize",
    }
}

fn local(local: usize) -> Place {
    Place { local, projection: Vec::new() }
}

fn moved(place: Place, ty: MirType) -> Operand {
    Operand { value: OperandValue::Place(place), ty: Some(ty) }
}

const SAVE: usize = 1;
const RUN: usize = 2;
const ENTRY: usize = 3;
const DISPATCH: usize = 4;
const OTHER: usize = 5;

fn body(blocks: Vec<MirBlock>, locals: usize, argument_types: Vec<MirType>) -> MirBody {
    MirBody { blocks, locals, argument_types, return_type: ty(0, "()") }
}

fn call(callee: usize, is_virtual: bool, arguments: Vec<Operand>) -> Terminator {
    Terminator::Call(CallTerminator {
        callee: Some(Callee { instance: callee, is_virtual }),
        arguments,
        destination: local(0),
        destination_type: Some(ty(0, "()")),
        target: Some(1),
        successors: vec![1],
    })
}

fn end() -> MirBlock {
    MirBlock { assignments: Vec::new(), terminator: Terminator::Return }
}

fn item(instance: usize, name: &str, line: usize, body: MirBody, sites: Vec<CallSite>) -> InstanceBody {
    InstanceBody {
        instance,
        name: name.to_owned(),
        definition_name: name.to_owned(),
        span: span(line),
        body,
        sites,
        constructor_spans: Vec::new(),
        constructor_names: Vec::new(),
        coroutines: Vec::new(),
    }
}

fn site(target: &str, line: usize) -> CallSite {
    CallSite {
        block: 0,
        target: Some(target.to_owned()),
        definition_name: target.to_owned(),
        span: span(line),
        signature: None,
    }
}

/// A caller that hands a value of one type to a function that takes any.
fn caller(instance: usize, name: &str, line: usize, concrete: usize, concrete_name: &str) -> InstanceBody {
    let cast = Assignment {
        destination: local(2),
        value: Rvalue::Unsize {
            operand: moved(local(1), ty(11, concrete_name)),
            concrete: Some(ConcreteType { id: concrete, name: concrete_name.to_owned() }),
        },
        ty: Some(ty(10, "&dyn Store")),
    };
    let first = MirBlock {
        assignments: vec![cast],
        terminator: call(RUN, false, vec![moved(local(2), ty(10, "&dyn Store"))]),
    };
    item(
        instance,
        name,
        line,
        body(vec![first, end()], 3, Vec::new()),
        vec![site("run", line + 1)],
    )
}

fn program() -> SemanticProgram {
    let run = MirBlock {
        assignments: Vec::new(),
        terminator: call(DISPATCH, true, vec![moved(local(1), ty(10, "&dyn Store"))]),
    };
    let items = vec![
        item(SAVE, "<Postgres as Store>::save", 1, body(vec![end()], 1, Vec::new()), Vec::new()),
        item(
            RUN,
            "run",
            10,
            body(vec![run, end()], 2, vec![ty(10, "&dyn Store")]),
            vec![site("Store::save", 11)],
        ),
        caller(ENTRY, "entry", 20, 0, "Postgres"),
        caller(OTHER, "other", 30, 1, "S3"),
    ];
    let entry = |concrete: usize, candidate: &str| DispatchEntry {
        dispatch: DISPATCH,
        concrete,
        candidate: candidate.to_owned(),
    };
    let table = DispatchTable {
        crate_name: "shop".to_owned(),
        entries: vec![entry(0, "<Postgres as Store>::save"), entry(1, "<S3 as Store>::save")],
        observed: vec![
            ObservedDispatch { dispatch: DISPATCH, candidate: "<Postgres as Store>::save".to_owned() },
            ObservedDispatch { dispatch: DISPATCH, candidate: "<S3 as Store>::save".to_owned() },
        ],
    };
    collect_instances(&items, &table)
}

fn called<'a>(program: &'a SemanticProgram, caller: &str) -> &'a SemanticFunction {
    let caller = program.functions.iter().find(|function| function.base_key == caller).unwrap();
    let SemanticCallTarget::Direct { key, .. } = &caller.calls[0].target else {
        panic!("{:?}", caller.calls[0].target);
    };
    program.functions.iter().find(|function| &function.key == key).unwrap()
}

fn candidates(function: &SemanticFunction) -> (Vec<String>, bool) {
    let SemanticCallTarget::Dynamic { candidates, open, .. } = &function.calls[0].target else {
        panic!("{:?}", function.calls[0].target);
    };
    (candidates.iter().map(|candidate| candidate.display.clone()).collect(), *open)
}

#[test]
fn dynamic_calls_reach_what_their_callers_pass() {
    let program = program();
    assert_eq!(program.crate_name, "shop");
    let (for_entry, open) = candidates(called(&program, "entry"));
    assert_eq!(for_entry.len(), 1);
    assert!(for_entry[0].contains("Postgres"), "{for_entry:?}");
    assert!(!open);
    let (for_other, open) = candidates(called(&program, "other"));
    assert_eq!(for_other.len(), 1);
    assert!(for_other[0].contains("S3"), "{for_other:?}");
    assert!(!open);
    assert_ne!(called(&program, "entry").key, called(&program, "other").key);
}

#[test]
fn what_enters_from_outside_stays_open() {
    let run = MirBlock {
        assignments: Vec::new(),
        terminator: call(DISPATCH, true, vec![moved(local(1), ty(10, "&dyn Store"))]),
    };
    let items = vec![item(
        RUN,
        "run",
        10,
        body(vec![run, end()], 2, vec![ty(10, "&dyn Store")]),
        vec![site("Store::save", 11)],
    )];
    let table = DispatchTable {
        crate_name: "shop".to_owned(),
        entries: Vec::new(),
        observed: Vec::new(),
    };
    let program = collect_instances(&items, &table);
    let SemanticCallTarget::Dynamic { candidates, open, unresolved_reasons, .. } =
        &program.functions[0].calls[0].target
    else {
        panic!("{:?}", program.functions[0].calls[0].target);
    };
    assert!(candidates.is_empty());
    assert!(*open);
    assert_eq!(*unresolved_reasons, [UnresolvedReason::OpaqueInput]);
}

#[test]
fn values_keep_their_types_through_fields_and_returns() {
    let field = Place { local: 2, projection: vec![Projection::Field { index: 0, ty: 10 }] };
    let dynamic = || ty(10, "&dyn Store");
    let first = MirBlock {
        assignments: vec![
            Assignment {
                destination: local(1),
                value: Rvalue::Unsize {
                    operand: moved(local(4), ty(11, "&Postgres")),
                    concrete: Some(ConcreteType { id: 0, name: "Postgres".to_owned() }),
                },
                ty: Some(dynamic()),
            },
            Assignment {
                destination: local(2),
                value: Rvalue::Aggregate {
                    kind: AggregateKind::Struct,
                    operands: vec![moved(local(1), dynamic())],
                },
                ty: Some(ty(12, "Holder<&dyn Store>")),
            },
            Assignment {
                destination: local(3),
                value: Rvalue::Use(moved(field, dynamic())),
                ty: Some(dynamic()),
            },
        ],
        terminator: call(DISPATCH, true, vec![moved(local(3), dynamic())]),
    };
    let items = vec![item(
        ENTRY,
        "entry",
        20,
        body(vec![first, end()], 5, Vec::new()),
        vec![site("Store::save", 21)],
    )];
    let table = DispatchTable {
        crate_name: "shop".to_owned(),
        entries: vec![DispatchEntry {
            dispatch: DISPATCH,
            concrete: 0,
            candidate: "<Postgres as Store>::save".to_owned(),
        }],
        observed: Vec::new(),
    };
    let program = collect_instances(&items, &table);
    let (names, open) = candidates(&program.functions[0]);
    assert_eq!(names.len(), 1);
    assert!(!open);
}

fn tree(id: usize, text: &str, kind: TypeKind) -> TypeTree {
    TypeTree { id, text: text.to_owned(), principal: None, kind }
}

fn dynamic(definition: usize, is_bound: bool) -> TypeTree {
    TypeTree {
        id: 50,
        text: "dyn Store".to_owned(),
        principal: Some(Principal { definition, arguments: vec![9], is_bound }),
        kind: TypeKind::Other,
    }
}

fn reference(id: usize, inner: TypeTree) -> TypeTree {
    let text = format!("&{}", inner.text);
    tree(id, &text, TypeKind::Ref(Box::new(inner)))
}

#[test]
fn coercions_tell_which_value_becomes_dynamic() {
    let source = reference(2, tree(1, "Postgres", TypeKind::Other));
    let target = reference(51, dynamic(7, false));
    let (concrete, principal) = dyn_coercion(&source, &target).unwrap();
    assert_eq!((concrete, principal.definition), (1, 7));
    assert_eq!(dynamic_principal(&target).unwrap().definition, 7);
    assert!(dyn_coercion(&target, &target).is_none());
    let boxed = |inner: TypeTree, id: usize| {
        tree(id, "Box<..>", TypeKind::Adt {
            definition: 3,
            variants: vec!["Box".to_owned()],
            arguments: vec![Some(inner)],
        })
    };
    let from = boxed(tree(1, "Postgres", TypeKind::Other), 60);
    let to = boxed(dynamic(7, false), 61);
    assert_eq!(dyn_coercion(&from, &to).unwrap().0, 1);
    let mut observed: Vec<ObservedVtable> = Vec::new();
    let again = || Coercion {
        source: reference(2, tree(1, "Postgres", TypeKind::Other)),
        target: reference(51, dynamic(7, false)),
    };
    let bound = Coercion {
        source: reference(2, tree(1, "Postgres", TypeKind::Other)),
        target: reference(51, dynamic(8, true)),
    };
    collect_observed_vtables(&mut observed, &vec![again(), bound, again()]);
    assert_eq!(observed.len(), 1);
    assert_eq!(observed[0].concrete, 1);
    let methods = vec![VtableMethod { instance: 70, definition: 71, implements: Some(72) }];
    let receiver = dynamic(7, false);
    let found = |receiver: &TypeTree, at_place: Option<usize>, method: usize| {
        resolve_observed_dispatch_candidate(
            Some(receiver),
            &observed[0],
            "Postgres",
            at_place,
            &methods,
            method,
        )
    };
    assert_eq!(found(&receiver, Some(70), 0), Some(70));
    assert_eq!(found(&dynamic(99, false), Some(1), 72), Some(70));
    assert_eq!(found(&dynamic(99, false), Some(1), 73), None);
}

#[test]
fn constructors_are_those_of_the_types_inside() {
    let inner = tree(1, "Order", TypeKind::Adt {
        definition: 1,
        variants: vec!["Order".to_owned()],
        arguments: Vec::new(),
    });
    let outer = tree(2, "Option<Order>", TypeKind::Adt {
        definition: 2,
        variants: vec!["None".to_owned(), "Some".to_owned()],
        arguments: vec![Some(inner)],
    });
    let mut names = Vec::new();
    collect_adt_constructor_names(&outer, &mut names);
    assert_eq!(names, ["None", "Order", "Some"]);
    let mut none = Vec::new();
    collect_adt_constructor_names(&tree(3, "{async closure@a.rs:1:1}", TypeKind::Other), &mut none);
    assert!(none.is_empty());
}

fn found(id: usize, definition: usize, size: usize) -> FoundInstance {
    FoundInstance {
        id,
        definition,
        size,
        definition_name: "grow".to_owned(),
        has_body: true,
    }
}

fn leads_to(target: FoundInstance) -> FoundBlock {
    FoundBlock {
        coroutines: Vec::new(),
        call: Some(FoundCall {
            target,
            is_virtual: false,
            is_local: true,
            in_root: false,
            argument_types: Vec::new(),
            destination_type: None,
        }),
    }
}

#[test]
fn instances_are_taken_up_once() {
    let mut work = collect_instance_bodies(&vec![1, 2, 1]);
    let first = take_instance(&mut work).unwrap();
    assert_eq!(first.id, 1);
    visit_instance(&mut work, 1, &first.history, &vec![4], &vec![leads_to(found(2, 2, 5))]);
    assert_eq!(work.vtables, [4]);
    assert_eq!(take_instance(&mut work).unwrap().id, 2);
    assert!(take_instance(&mut work).is_none());
    assert_eq!(work.visited, [1, 2]);
    visit_candidates(&mut work, &vec![found(2, 2, 5), found(3, 3, 5)]);
    assert_eq!(take_instance(&mut work).unwrap().id, 3);
    assert!(!work.expanding);
}

#[test]
fn growing_instances_come_to_an_end() {
    let mut work = collect_instance_bodies(&vec![0]);
    let mut taken = 0;
    while let Some(waiting) = take_instance(&mut work) {
        taken += 1;
        let next = found(waiting.id + 1, 7, 10 + waiting.id);
        visit_instance(&mut work, waiting.id, &waiting.history, &Vec::new(), &vec![leads_to(next)]);
    }
    assert!(work.expanding);
    assert_eq!(taken, 9);
}

#[test]
fn foreign_bodies_are_followed_where_they_matter() {
    let block = |is_local: bool, in_root: bool, argument: &str| FoundBlock {
        coroutines: Vec::new(),
        call: Some(FoundCall {
            target: found(9, 9, 1),
            is_virtual: false,
            is_local,
            in_root,
            argument_types: vec![ty(1, argument)],
            destination_type: None,
        }),
    };
    let waits = |block: FoundBlock| {
        let mut work = collect_instance_bodies(&Vec::new());
        let history = ExpansionHistory { entries: Vec::new() };
        visit_instance(&mut work, 1, &history, &Vec::new(), &vec![block]);
        !work.queue.is_empty()
    };
    assert!(!waits(block(false, false, "u64")));
    assert!(waits(block(false, true, "u64")));
    assert!(waits(block(false, false, "&dyn Store")));
    assert!(waits(block(true, false, "u64")));
    assert!(instance_body_is_in_analysis_root(&path("/p/a.rs"), None, &path("/p"), None));
    assert!(!instance_body_is_in_analysis_root(&path("/q/a.rs"), None, &path("/p"), None));
    assert!(instance_body_is_in_analysis_root(
        &path("/q/a.rs"),
        Some(&path("/real/a.rs")),
        &path("/p"),
        Some(&path("/real"))
    ));
}

#[test]
fn digests_are_those_of_sha256() {
    assert_eq!(short_digest_text("abc"), "ba7816bf8f01");
}

fn tool(program: &str, said: &str) -> CommandIdentity {
    CommandIdentity {
        program: program.to_owned(),
        stdout: said.as_bytes().to_vec(),
        stderr: Vec::new(),
        code: Some(0),
    }
}

fn variable(key: &str, value: &str) -> EnvironmentVariable {
    EnvironmentVariable {
        name: Some(key.to_owned()),
        key: key.as_bytes().to_vec(),
        value: value.as_bytes().to_vec(),
    }
}

#[test]
fn fingerprints_hold_all_that_an_analysis_depends_on() {
    let environment =
        vec![variable("PATH", "/bin"), variable("LANG", "C"), variable("CC", "gcc")];
    let inputs = ProjectInputs::Files(vec![ProjectInput::File {
        relative: b"src/a.rs".to_vec(),
        contents: b"fn a() {}".to_vec(),
    }]);
    let fingerprint = |said: &str| {
        semantic_cache_fingerprint(
            "1.0",
            &tool("rustc", said),
            &tool("cargo", "cargo 1"),
            &environment,
            &inputs,
        )
    };
    assert_eq!(
        fingerprint("rustc 1"),
        "2034c58e5d533be042485676482904699df4a029282d3e50724b83876358d8fe"
    );
    assert_ne!(fingerprint("rustc 1"), fingerprint("rustc 2"));
    assert!(rust_build_environment_key(None));
    assert!(rust_build_environment_key(Some("CARGO_PROFILE_DEV_DEBUG")));
    assert!(!rust_build_environment_key(Some("LANG")));
}

#[test]
fn sessions_keep_what_they_are_asked_to() {
    let temporary = RustProjectSession::create(path("/tmp/s"));
    assert_eq!(temporary.target, path("/tmp/s/target"));
    assert_eq!(temporary.cache_path(), None);
    assert_eq!(temporary.report_cache(true, "0123456789abcdef", 1, 2), None);
    let kept = RustProjectSession::create_cached(&path("/p"), "git-before", true).unwrap();
    assert_eq!(kept.target, path("/p/target/diffkit-semantic/git-before"));
    assert_eq!(
        kept.cache_path(),
        Some(path("/p/target/diffkit-semantic/git-before/.diffkit/analysis-v2.json"))
    );
    assert_eq!(
        kept.report_cache(false, "0123456789abcdef", 3, 40).as_deref(),
        Some("Rust semantic cache miss: git-before [0123456789ab] (40 ms; fingerprint 3 ms)")
    );
    for endpoint in ["", "a/b", "..", "/a"] {
        assert_eq!(
            RustProjectSession::create_cached(&path("/p"), endpoint, false).unwrap_err(),
            "Rust semantic cache endpoint must be one path component"
        );
    }
}

#[test]
fn failures_are_told_as_the_tools_tell_them() {
    assert_eq!(failure_message(" broken \n", "exited with ", "1"), "broken");
    assert_eq!(failure_message(" \n", "exited with ", "1"), "exited with 1");
    assert_eq!(
        require_standalone(&path("lib"), false).unwrap_err(),
        "Rust analysis currently requires a standalone .rs file: lib"
    );
    assert_eq!(
        project_seeds(&path("/p"), false, &Vec::new()).unwrap_err(),
        "no Cargo.toml at Rust project root /p"
    );
    let entries = vec!["run<Postgres>".to_owned(), "entry".to_owned()];
    assert_eq!(
        project_seeds(&path("/p"), true, &entries),
        Ok(Some(vec!["run<Postgres>".to_owned()]))
    );
    assert_eq!(project_seeds(&path("/p"), true, &Vec::new()), Ok(None));
    assert_eq!(
        CompilerEnd::Failed.to_text(&path("a.rs")),
        "rustc failed to compile a.rs for semantic analysis"
    );
    assert_eq!(
        CompilerEnd::Skipped.to_text(&path("a.rs")),
        "rustc skipped semantic analysis before its callback ran"
    );
    assert_eq!(
        CompilerEnd::Expanding.to_text(&path("a.rs")),
        "rustc semantic analysis stopped at a recursively expanding generic instantiation"
    );
    assert_eq!(
        CompilerEnd::Unasked.to_text(&path("a.rs")),
        "rustc semantic callback unexpectedly completed without analysis"
    );
}

#[test]
fn closures_with_different_surroundings_have_different_names() {
    let plain = vec![GenericArgument::Type { rendered: "Postgres".to_owned(), closure: None }];
    assert_eq!(stable_instance_name("run::<Postgres>", &plain), "run::<Postgres>");
    let with = |inner: &str| {
        stable_instance_name(
            "apply::<{closure@src/a.rs:3:5: 3:7}>",
            &vec![GenericArgument::Type {
                rendered: "{closure@src/a.rs:3:5: 3:7}".to_owned(),
                closure: Some(ClosureType {
                    definition_name: "entry::{closure#0}".to_owned(),
                    arguments: vec![GenericArgument::Type {
                        rendered: inner.to_owned(),
                        closure: None,
                    }],
                }),
            }],
        )
    };
    assert!(with("Postgres").contains("[[diffkit-closure-env:("), "{}", with("Postgres"));
    assert!(!with("Postgres").contains("src/a.rs"), "{}", with("Postgres"));
    assert_ne!(with("Postgres"), with("S3"));
    assert_eq!(with("Postgres"), with("Postgres"));
}
