use diffkit::diff::diff_optional;
use diffkit::model::{CallLabel, CallNode, CallRelation};
use diffkit::render::{
    color_line, render_call_tree_with_options, render_diff_tree, render_diff_tree_with_options,
    AnsiColor, ColorMode, RenderOptions,
};

#[test]
fn ansi_is_the_default_color_mode() {
    assert_eq!(ColorMode::default(), ColorMode::Ansi);
    assert_eq!(RenderOptions::default().color, ColorMode::Ansi);
}

#[test]
fn ansi_mode_colors_complete_diff_lines() {
    assert_eq!(
        color_line(
            "+ └─ commit()".to_owned(),
            AnsiColor::Green,
            ColorMode::Ansi
        ),
        "\u{1b}[32m+ └─ commit()\u{1b}[0m"
    );
    assert_eq!(
        color_line(
            "- └─ rollback()".to_owned(),
            AnsiColor::Red,
            ColorMode::Ansi
        ),
        "\u{1b}[31m- └─ rollback()\u{1b}[0m"
    );
}

#[test]
fn plain_mode_has_no_terminal_control_sequences() {
    assert_eq!(
        color_line(
            "+ └─ commit()".to_owned(),
            AnsiColor::Green,
            ColorMode::Plain
        ),
        "+ └─ commit()"
    );
}

#[test]
fn renders_dispatch_candidates_with_a_complete_double_line_relation() {
    let tree = CallNode {
        key: "rust://run".to_owned(),
        callsite: None,
        label: CallLabel::new("run(store, order)"),
        relation: CallRelation::Call,
        children: vec![CallNode {
            key: "rust://Store::save".to_owned(),
            callsite: None,
            label: CallLabel::new("dyn Store::save(order)"),
            relation: CallRelation::Call,
            children: vec![
                CallNode {
                    key: "rust://Postgres::save".to_owned(),
                    callsite: None,
                    label: CallLabel::new("Postgres::save(order)"),
                    relation: CallRelation::DispatchCandidate,
                    children: vec![CallNode {
                        key: "rust://sql::insert".to_owned(),
                        callsite: None,
                        label: CallLabel::new("sql::insert(order)"),
                        relation: CallRelation::Call,
                        children: Vec::new(),
                    }],
                },
                CallNode {
                    key: "rust://S3::save".to_owned(),
                    callsite: None,
                    label: CallLabel::new("S3::save(order)"),
                    relation: CallRelation::DispatchCandidate,
                    children: vec![CallNode {
                        key: "rust://aws::put_object".to_owned(),
                        callsite: None,
                        label: CallLabel::new("aws::put_object(order)"),
                        relation: CallRelation::Call,
                        children: Vec::new(),
                    }],
                },
            ],
        }],
    };
    let diff = diff_optional(Some(&tree), Some(&tree)).unwrap();

    assert_eq!(
        render_diff_tree_with_options(
            &diff,
            &RenderOptions {
                show_types: false,
                color: ColorMode::Plain,
            },
        ),
        "  run(store, order)\n  └─ dyn Store::save(order)\n     ╠═ Postgres::save(order)\n     ║  └─ sql::insert(order)\n     ╚═ S3::save(order)\n        └─ aws::put_object(order)"
    );
}

#[test]
fn renders_recursive_calls_as_right_side_back_edges() {
    let tree = CallNode {
        key: "rust://a".to_owned(),
        callsite: None,
        label: CallLabel::new("a()"),
        relation: CallRelation::Call,
        children: vec![CallNode {
            key: "rust://b".to_owned(),
            callsite: None,
            label: CallLabel::new("b()"),
            relation: CallRelation::Call,
            children: vec![CallNode {
                key: "rust://a".to_owned(),
                callsite: None,
                label: CallLabel::new("a()"),
                relation: CallRelation::BackEdge,
                children: Vec::new(),
            }],
        }],
    };

    assert_eq!(
        render_call_tree_with_options(
            &tree,
            &RenderOptions {
                show_types: false,
                color: ColorMode::Plain,
            },
        ),
        "  a() ◀───────┐\n  └─ b()      │\n     └─ a() ──┘"
    );
}

#[test]
fn shares_one_rail_between_calls_to_the_same_recursive_ancestor() {
    let back_edge = |label: &str| CallNode {
        key: "ocaml://walk".to_owned(),
        callsite: None,
        label: CallLabel::new(label),
        relation: CallRelation::BackEdge,
        children: Vec::new(),
    };
    let tree = CallNode {
        key: "ocaml://walk".to_owned(),
        callsite: None,
        label: CallLabel::new("walk value"),
        relation: CallRelation::Call,
        children: vec![
            back_edge("walk left"),
            back_edge("walk right"),
            back_edge("walk tail"),
        ],
    };

    let rendered = render_call_tree_with_options(
        &tree,
        &RenderOptions {
            show_types: false,
            color: ColorMode::Plain,
        },
    );
    assert_eq!(rendered.matches('┐').count(), 1, "{rendered}");
    assert_eq!(rendered.matches('┤').count(), 2, "{rendered}");
    assert_eq!(rendered.matches('┘').count(), 1, "{rendered}");
    assert!(rendered.lines().all(|line| line.chars().count() < 32));
}

#[test]
fn keeps_partial_and_unresolved_dispatch_wording_distinct() {
    let tree = CallNode {
        key: "rust://run".to_owned(),
        callsite: None,
        label: CallLabel::new("run(store)"),
        relation: CallRelation::Call,
        children: vec![
            CallNode {
                key: "rust://Store::save#partial".to_owned(),
                callsite: None,
                label: CallLabel::new("dyn Store::save() [partial]"),
                relation: CallRelation::Call,
                children: vec![
                    CallNode {
                        key: "rust://Postgres::save".to_owned(),
                        callsite: None,
                        label: CallLabel::new("Postgres::save()"),
                        relation: CallRelation::DispatchCandidate,
                        children: Vec::new(),
                    },
                    CallNode {
                        key: "rust://Store::save#unresolved".to_owned(),
                        callsite: None,
                        label: CallLabel::new("… unresolved targets"),
                        relation: CallRelation::DispatchCandidate,
                        children: Vec::new(),
                    },
                ],
            },
            CallNode {
                key: "rust://Store::load".to_owned(),
                callsite: None,
                label: CallLabel::new("dyn Store::load() [unresolved]"),
                relation: CallRelation::Call,
                children: Vec::new(),
            },
        ],
    };

    assert_eq!(
        render_call_tree_with_options(
            &tree,
            &RenderOptions {
                show_types: false,
                color: ColorMode::Plain,
            },
        ),
        "  run(store)\n  ├─ dyn Store::save() [partial]\n  │  ╠═ Postgres::save()\n  │  ╚═ … unresolved targets\n  └─ dyn Store::load() [unresolved]"
    );
}

fn line(key: &str, label: &str, relation: CallRelation, children: Vec<CallNode>) -> CallNode {
    CallNode {
        key: key.to_owned(),
        callsite: None,
        label: CallLabel::new(label),
        relation,
        children,
    }
}

#[test]
fn colors_change_no_text() {
    let tree = |label: &str| {
        line(
            "rust://run",
            "run()",
            CallRelation::Call,
            vec![
                line("rust://a", label, CallRelation::Call, Vec::new()),
                line("rust://run", "run()", CallRelation::BackEdge, Vec::new()),
                line(label, label, CallRelation::DispatchCandidate, Vec::new()),
            ],
        )
    };
    let diff = diff_optional(Some(&tree("a(1)")), Some(&tree("a(2)"))).unwrap();
    let shown = |color| {
        render_diff_tree_with_options(&diff, &RenderOptions { show_types: false, color })
    };
    let colored = shown(ColorMode::Ansi);
    assert!(colored.contains('\u{1b}'), "{colored}");
    let mut bare = colored;
    for code in ["\u{1b}[31m", "\u{1b}[32m", "\u{1b}[33m", "\u{1b}[0m"] {
        bare = bare.replace(code, "");
    }
    assert_eq!(bare, shown(ColorMode::Plain));
    assert_eq!(render_diff_tree(&diff), shown(ColorMode::Ansi));
}

#[test]
fn a_changed_way_back_is_shown() {
    let tree = |label: &str| {
        line(
            "rust://run",
            "run()",
            CallRelation::Call,
            vec![line("rust://run", label, CallRelation::BackEdge, Vec::new())],
        )
    };
    let diff = diff_optional(Some(&tree("run(1)")), Some(&tree("run(2)"))).unwrap();
    let options = RenderOptions { show_types: false, color: ColorMode::Plain };
    let shown = render_diff_tree_with_options(&diff, &options);
    assert!(shown.contains("run(2)"), "{shown}");
}
