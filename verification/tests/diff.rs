use diffkit::diff::{
    collapse_unchanged_subtrees, diff_optional, tree_has_changes, truncate_diff_tree, DiffStatus,
};
use diffkit::model::{CallLabel, CallNode, CallRelation, CallSiteId};

fn node(key: &str, label: CallLabel, children: Vec<CallNode>) -> CallNode {
    CallNode {
        key: key.to_owned(),
        callsite: None,
        label,
        relation: CallRelation::Call,
        children,
    }
}

fn call(key: &str, site: &str, label: &str) -> CallNode {
    CallNode {
        key: key.to_owned(),
        callsite: Some(CallSiteId(site.to_owned())),
        label: CallLabel::new(label),
        relation: CallRelation::Call,
        children: Vec::new(),
    }
}

#[test]
fn aligns_by_semantic_key_and_records_a_display_change() {
    let before = node("rust://save", CallLabel::new("save(order)"), Vec::new());
    let after = node(
        "rust://save",
        CallLabel::new("save(next_order)"),
        Vec::new(),
    );

    let diff = diff_optional(Some(&before), Some(&after)).unwrap();
    assert_eq!(diff.key, "rust://save");
    assert_eq!(diff.status, DiffStatus::Modified);
    assert_eq!(
        diff.before_label
            .as_ref()
            .map(|label| label.default.as_str()),
        Some("save(order)")
    );
}

#[test]
fn typed_labels_do_not_create_noise_in_the_default_call_diff() {
    let before = node(
        "rust://save",
        CallLabel::with_types("save(order)", "save(order: OldOrder)"),
        Vec::new(),
    );
    let after = node(
        "rust://save",
        CallLabel::with_types("save(order)", "save(order: NewOrder)"),
        Vec::new(),
    );

    let diff = diff_optional(Some(&before), Some(&after)).unwrap();
    assert_eq!(diff.status, DiffStatus::Same);
    assert!(!tree_has_changes(&diff));
}

#[test]
fn collapses_unchanged_context_below_its_first_line() {
    let stable = node(
        "rust://stable",
        CallLabel::new("stable()"),
        vec![node("rust://deep", CallLabel::new("deep()"), Vec::new())],
    );
    let before = node(
        "rust://root",
        CallLabel::new("root()"),
        vec![
            stable.clone(),
            node("rust://old", CallLabel::new("old()"), Vec::new()),
        ],
    );
    let after = node(
        "rust://root",
        CallLabel::new("root()"),
        vec![
            stable,
            node("rust://new", CallLabel::new("new()"), Vec::new()),
        ],
    );
    let mut diff = diff_optional(Some(&before), Some(&after)).unwrap();

    assert!(collapse_unchanged_subtrees(&mut diff));
    assert_eq!(diff.children[0].label.default, "stable()");
    assert!(diff.children[0].children.is_empty());
}

#[test]
fn aligns_repeated_callees_by_callsite_and_label_before_target_fallback() {
    let before = node(
        "rust://root",
        CallLabel::new("root()"),
        vec![
            call("rust://save", "save@1", "save(first)"),
            call("rust://save", "save@2", "save(second)"),
        ],
    );
    let after = node(
        "rust://root",
        CallLabel::new("root()"),
        vec![
            call("rust://save", "save@0", "save(inserted)"),
            call("rust://save", "save@1", "save(first)"),
            call("rust://save", "save@2", "save(second)"),
        ],
    );

    let diff = diff_optional(Some(&before), Some(&after)).unwrap();
    assert_eq!(
        diff.children
            .iter()
            .map(|node| (node.label.default.as_str(), node.status))
            .collect::<Vec<_>>(),
        vec![
            ("save(inserted)", DiffStatus::Added),
            ("save(first)", DiffStatus::Same),
            ("save(second)", DiffStatus::Same),
        ]
    );
}

#[test]
fn absolute_source_line_shifts_do_not_corrupt_repeated_call_alignment() {
    let before = node(
        "rust://root",
        CallLabel::new("root()"),
        vec![
            call("rust://touch", "touch@4", "touch(item)"),
            call("rust://touch", "touch@5", "touch(item)"),
            call("rust://touch", "touch@6", "touch(item)"),
        ],
    );
    let after = node(
        "rust://root",
        CallLabel::new("root()"),
        vec![
            call("rust://touch", "touch@5", "touch(item)"),
            call("rust://touch", "touch@6", "touch(item)"),
            call("rust://touch", "touch@7", "touch(item)"),
            call("rust://finish", "finish@8", "finish()"),
        ],
    );

    let diff = diff_optional(Some(&before), Some(&after)).unwrap();
    assert_eq!(diff.children.len(), 4);
    assert!(
        diff.children[..3]
            .iter()
            .all(|node| node.status == DiffStatus::Same)
    );
    assert_eq!(diff.children[3].label.default, "finish()");
    assert_eq!(diff.children[3].status, DiffStatus::Added);
}

#[test]
fn preserves_a_deep_change_when_presentation_depth_is_small() {
    let before = node(
        "root",
        CallLabel::new("root()"),
        vec![node(
            "a",
            CallLabel::new("a()"),
            vec![node("b", CallLabel::new("b()"), Vec::new())],
        )],
    );
    let after = node(
        "root",
        CallLabel::new("root()"),
        vec![node(
            "a",
            CallLabel::new("a()"),
            vec![node(
                "b",
                CallLabel::new("b()"),
                vec![node("new", CallLabel::new("new()"), Vec::new())],
            )],
        )],
    );
    let mut diff = diff_optional(Some(&before), Some(&after)).unwrap();
    assert!(tree_has_changes(&diff));
    truncate_diff_tree(&mut diff, 1);
    assert_eq!(
        diff.children[0].children[0].label.default,
        "… changed below max depth"
    );
}

#[test]
fn places_of_calls_have_no_part_in_a_comparison() {
    let tree = |sites: [&str; 3], last: &str| {
        node(
            "rust://root",
            CallLabel::new("root()"),
            vec![
                call("rust://a", sites[0], "a(x)"),
                call("rust://a", sites[1], "a(y)"),
                call("rust://b", sites[2], last),
            ],
        )
    };
    let told = |before: &CallNode, after: &CallNode| {
        diff_optional(Some(before), Some(after))
            .unwrap()
            .children
            .iter()
            .map(|node| (node.label.default.clone(), node.status))
            .collect::<Vec<_>>()
    };
    let here = ["a@1", "a@2", "b@3"];
    let there = ["a@9", "a@1", "b@2"];
    let expected = told(&tree(here, "b(1)"), &tree(here, "b(2)"));
    assert_eq!(expected[2], ("b(2)".to_owned(), DiffStatus::Modified));
    assert_eq!(told(&tree(here, "b(1)"), &tree(there, "b(2)")), expected);
    assert_eq!(told(&tree(there, "b(1)"), &tree(here, "b(2)")), expected);
}
