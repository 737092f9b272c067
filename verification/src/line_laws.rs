//! What the lines of a comparison show: each node has its line, with a mark, at
//! its depth, and there are no other lines.
use crate::diff::{DiffModel, DiffStatus};
use crate::lists::joint_items;
use crate::model::{CallRelation, LabelModel};
use crate::render::{
    branch_text, child_indent, children_lines, own_lines, root_lines, status_mark, tree_lines,
    AnsiColor, LineModel, RenderOptions,
};
use vstd::prelude::*;

verus! {

/// The node that a way through children leads to.
pub open spec fn node_at(root: DiffModel, way: Seq<int>) -> DiffModel
    decreases way.len(),
{
    if way.len() == 0 {
        root
    } else {
        node_at(root.children[way[0]], way.skip(1))
    }
}

/// Whether a way leads to a node that is shown: through children that are
/// there, and not through a back edge.
pub open spec fn is_shown(root: DiffModel, way: Seq<int>) -> bool
    decreases way.len(),
{
    way.len() == 0 || (root.relation != CallRelation::BackEdge && 0 <= way[0]
        < root.children.len() && is_shown(root.children[way[0]], way.skip(1)))
}

/// Whether the node at the end of a way is the last child of its parent.
pub open spec fn is_last_child(root: DiffModel, way: Seq<int>) -> bool
    decreases way.len(),
{
    if way.len() <= 1 {
        way.len() == 1 && way[0] == root.children.len() - 1
    } else {
        is_last_child(root.children[way[0]], way.skip(1))
    }
}

/// Whether nothing stands behind the node at the end of a way among its
/// siblings.
pub open spec fn ends_last(root: DiffModel, way: Seq<int>) -> bool {
    way.len() == 0 || is_last_child(root, way)
}

/// What is shown of a label.
pub open spec fn shown_label(label: LabelModel, types: bool) -> Seq<char> {
    match label.typed {
        Some(typed) => if types {
            typed
        } else {
            label.default
        },
        None => label.default,
    }
}

/// Whether a text shows a label at a depth behind a mark.
pub open spec fn shows_at(
    text: Seq<char>,
    first: char,
    depth: nat,
    label: Seq<char>,
) -> bool {
    &&& text.len() == 2 + 3 * depth + label.len()
    &&& text[0] == first
    &&& text[1] == ' '
    &&& text.skip(2 + 3 * depth as int) == label
}

/// The mark in front of a line.
pub open spec fn mark_of(status: DiffStatus) -> char {
    match status {
        DiffStatus::Same => ' ',
        DiffStatus::Added => '+',
        DiffStatus::Removed => '-',
        DiffStatus::Modified => '+',
    }
}

/// The color of a line.
pub open spec fn color_of(status: DiffStatus) -> Option<AnsiColor> {
    match status {
        DiffStatus::Same => None,
        DiffStatus::Added => Some(AnsiColor::Green),
        DiffStatus::Removed => Some(AnsiColor::Red),
        DiffStatus::Modified => Some(AnsiColor::Green),
    }
}

/// The character that connects a node to its parent.
pub open spec fn corner(relation: CallRelation, is_last: bool) -> char {
    if relation == CallRelation::DispatchCandidate {
        if is_last {
            '╚'
        } else {
            '╠'
        }
    } else if is_last {
        '└'
    } else {
        '├'
    }
}

/// Whether a line shows a node at a depth.
pub open spec fn shows_node(
    line: LineModel,
    node: DiffModel,
    depth: nat,
    is_last: bool,
    types: bool,
) -> bool {
    &&& shows_at(line.text, mark_of(node.status), depth, shown_label(node.label, types))
    &&& line.color == color_of(node.status)
    &&& depth > 0 ==> line.text[2 + 3 * (depth - 1)] == corner(node.relation, is_last)
}

/// Whether a line shows what a modified node was at a depth.
pub open spec fn shows_earlier(
    line: LineModel,
    node: DiffModel,
    depth: nat,
    types: bool,
) -> bool {
    &&& shows_at(line.text, '-', depth, shown_label(node.before_label->0, types))
    &&& line.color == Some(AnsiColor::Red)
}

proof fn pieces_are_three_wide()
    ensures
        ""@.len() == 0,
        "╠═ "@.len() == 3,
        "╚═ "@.len() == 3,
        "├─ "@.len() == 3,
        "└─ "@.len() == 3,
        "╠═ "@[0] == '╠',
        "╚═ "@[0] == '╚',
        "├─ "@[0] == '├',
        "└─ "@[0] == '└',
        "   "@.len() == 3,
        "║  "@.len() == 3,
        "│  "@.len() == 3,
        "  "@ == seq![' ', ' '],
        "+ "@ == seq!['+', ' '],
        "- "@ == seq!['-', ' '],
{
    reveal_strlit("");
    reveal_strlit("╠═ ");
    reveal_strlit("╚═ ");
    reveal_strlit("├─ ");
    reveal_strlit("└─ ");
    reveal_strlit("   ");
    reveal_strlit("║  ");
    reveal_strlit("│  ");
    reveal_strlit("  ");
    reveal_strlit("+ ");
    reveal_strlit("- ");
    assert("  "@ =~= seq![' ', ' ']);
    assert("+ "@ =~= seq!['+', ' ']);
    assert("- "@ =~= seq!['-', ' ']);
}

/// How many lines a tree has: one for each node that is shown, and one more for
/// each that is modified.
pub open spec fn lines_of(node: DiffModel) -> nat
    decreases node, 0nat,
{
    if node.relation == CallRelation::BackEdge {
        1
    } else {
        (if node.status == DiffStatus::Modified {
            2nat
        } else {
            1nat
        }) + lines_of_list(node.children, node.children.len())
    }
}

/// How many lines the first `count` trees of a list have.
pub open spec fn lines_of_list(nodes: Seq<DiffModel>, count: nat) -> nat
    decreases nodes, count,
{
    if count == 0 || count > nodes.len() {
        0
    } else {
        lines_of_list(nodes, (count - 1) as nat) + lines_of(nodes[count - 1])
    }
}

proof fn lines_are_counted(
    node: DiffModel,
    indent: Seq<char>,
    is_last: bool,
    is_root: bool,
    types: bool,
)
    ensures
        tree_lines(node, indent, is_last, is_root, types).len() == lines_of(node),
    decreases node, 0nat,
{
    if node.relation != CallRelation::BackEdge {
        assert(decreases_to!(node => node.children));
        lines_of_children_are_counted(
            node.children,
            child_indent(node, indent, is_last, is_root),
            types,
            node.children.len(),
        );
    }
}

proof fn lines_of_children_are_counted(
    children: Seq<DiffModel>,
    indent: Seq<char>,
    types: bool,
    count: nat,
)
    ensures
        children_lines(children, indent, types, count).len() == lines_of_list(children, count),
    decreases children, count,
{
    if count == 0 || count > children.len() {
    } else {
        lines_of_children_are_counted(children, indent, types, (count - 1) as nat);
        assert(decreases_to!(children => children[count - 1]));
        lines_are_counted(children[count - 1], indent, count == children.len(), false, types);
    }
}

/// A comparison has a line for each node that is shown and one more for each
/// modified node, and no others.
pub proof fn there_are_no_other_lines(root: DiffModel, options: RenderOptions)
    ensures
        root_lines(root, options).len() == lines_of(root),
{
    lines_are_counted(root, ""@, true, true, options.show_types);
}

proof fn own_lines_show_the_node(
    node: DiffModel,
    indent: Seq<char>,
    is_last: bool,
    is_root: bool,
    types: bool,
    depth: nat,
)
    requires
        is_root ==> depth == 0 && indent.len() == 0,
        !is_root ==> depth > 0 && indent.len() == 3 * (depth - 1),
    ensures
        exists|line: LineModel|
            own_lines(node, indent, is_last, is_root, types).contains(line) && #[trigger]
            shows_node(line, node, depth, is_last, types),
        node.status == DiffStatus::Modified && node.relation != CallRelation::BackEdge
            ==> exists|line: LineModel|
            own_lines(node, indent, is_last, is_root, types).contains(line) && #[trigger]
            shows_earlier(line, node, depth, types),
{
    pieces_are_three_wide();
    let own = own_lines(node, indent, is_last, is_root, types);
    let mark = status_mark(node.status).0;
    let branch = branch_text(node.relation, is_last, is_root);
    let label = shown_label(node.label, types);
    let text = mark + indent + branch + label;
    assert(text.skip(2 + 3 * depth as int) =~= label);
    if !is_root {
        assert(text[2 + 3 * (depth - 1)] == branch[0]);
    }
    let line = own.last();
    assert(line.text == text);
    assert(own[own.len() - 1] == line);
    assert(shows_node(line, node, depth, is_last, types));
    if node.status == DiffStatus::Modified && node.relation != CallRelation::BackEdge {
        let relation = match node.before_relation {
            Some(relation) => relation,
            None => node.relation,
        };
        let earlier = shown_label(node.before_label->0, types);
        let old_branch = branch_text(relation, is_last, is_root);
        let old_text = "- "@ + indent + old_branch + earlier;
        assert(old_text.skip(2 + 3 * depth as int) =~= earlier);
        assert(own[0].text == old_text);
        assert(shows_earlier(own[0], node, depth, types));
    }
}

proof fn lines_of_a_child_are_kept(
    children: Seq<DiffModel>,
    indent: Seq<char>,
    types: bool,
    count: nat,
    at: int,
    line: LineModel,
)
    requires
        0 <= at < count <= children.len(),
        tree_lines(
            children[at],
            indent,
            at == children.len() - 1,
            false,
            types,
        ).contains(line),
    ensures
        children_lines(children, indent, types, count).contains(line),
    decreases count,
{
    let before = children_lines(children, indent, types, (count - 1) as nat);
    let last = tree_lines(children[count - 1], indent, count == children.len(), false, types);
    joint_items(before, last, line);
    if at < count - 1 {
        lines_of_a_child_are_kept(children, indent, types, (count - 1) as nat, at, line);
    }
}

spec fn last_on_the_way(root: DiffModel, way: Seq<int>, is_last: bool) -> bool {
    if way.len() == 0 {
        is_last
    } else {
        is_last_child(root, way)
    }
}

proof fn nodes_have_lines(
    root: DiffModel,
    indent: Seq<char>,
    is_last: bool,
    is_root: bool,
    types: bool,
    depth: nat,
    way: Seq<int>,
)
    requires
        is_root ==> depth == 0 && indent.len() == 0,
        !is_root ==> depth > 0 && indent.len() == 3 * (depth - 1),
        is_shown(root, way),
    ensures
        ({
            let node = node_at(root, way);
            let last = last_on_the_way(root, way, is_last);
            let lines = tree_lines(root, indent, is_last, is_root, types);
            &&& exists|line: LineModel|
                lines.contains(line) && #[trigger] shows_node(
                    line,
                    node,
                    depth + way.len(),
                    last,
                    types,
                )
            &&& node.status == DiffStatus::Modified && node.relation != CallRelation::BackEdge
                ==> exists|line: LineModel|
                lines.contains(line) && #[trigger] shows_earlier(
                    line,
                    node,
                    depth + way.len(),
                    types,
                )
        }),
    decreases way.len(),
{
    pieces_are_three_wide();
    let lines = tree_lines(root, indent, is_last, is_root, types);
    let own = own_lines(root, indent, is_last, is_root, types);
    let inner = child_indent(root, indent, is_last, is_root);
    let below = children_lines(root.children, inner, types, root.children.len());
    let node = node_at(root, way);
    if way.len() == 0 {
        own_lines_show_the_node(root, indent, is_last, is_root, types, depth);
        let line = choose|line: LineModel|
            own.contains(line) && #[trigger] shows_node(line, root, depth, is_last, types);
        joint_items(own, below, line);
        assert(lines.contains(line));
        assert(shows_node(
            line,
            node,
            depth + way.len(),
            last_on_the_way(root, way, is_last),
            types,
        ));
        if root.status == DiffStatus::Modified && root.relation != CallRelation::BackEdge {
            let earlier = choose|earlier: LineModel|
                own.contains(earlier) && #[trigger] shows_earlier(earlier, root, depth, types);
            joint_items(own, below, earlier);
            assert(lines.contains(earlier));
            assert(shows_earlier(earlier, node, depth + way.len(), types));
        }
    } else {
        let at = way[0];
        let rest = way.skip(1);
        let child = root.children[at];
        let last = at == root.children.len() - 1;
        nodes_have_lines(child, inner, last, false, types, depth + 1, rest);
        let child_lines = tree_lines(child, inner, last, false, types);
        let end = last_on_the_way(child, rest, last);
        assert(end == last_on_the_way(root, way, is_last));
        let line = choose|line: LineModel|
            child_lines.contains(line) && #[trigger] shows_node(
                line,
                node,
                depth + 1 + rest.len(),
                end,
                types,
            );
        lines_of_a_child_are_kept(root.children, inner, types, root.children.len(), at, line);
        joint_items(own, below, line);
        assert(lines.contains(line));
        assert(shows_node(line, node, depth + way.len(), end, types));
        if node.status == DiffStatus::Modified && node.relation != CallRelation::BackEdge {
            let earlier = choose|earlier: LineModel|
                child_lines.contains(earlier) && #[trigger] shows_earlier(
                    earlier,
                    node,
                    depth + 1 + rest.len(),
                    types,
                );
            lines_of_a_child_are_kept(
                root.children,
                inner,
                types,
                root.children.len(),
                at,
                earlier,
            );
            joint_items(own, below, earlier);
            assert(lines.contains(earlier));
            assert(shows_earlier(earlier, node, depth + way.len(), types));
        }
    }
}

/// Each node of a comparison has a line of its own: marked and colored for its
/// status, at its depth, with its label. A modified node has a line for what it
/// was, too.
pub proof fn every_node_has_a_line(root: DiffModel, options: RenderOptions, way: Seq<int>)
    requires
        is_shown(root, way),
    ensures
        exists|line: LineModel|
            root_lines(root, options).contains(line) && #[trigger] shows_node(
                line,
                node_at(root, way),
                way.len(),
                ends_last(root, way),
                options.show_types,
            ),
        node_at(root, way).status == DiffStatus::Modified && node_at(root, way).relation
            != CallRelation::BackEdge ==> exists|line: LineModel|
            root_lines(root, options).contains(line) && #[trigger] shows_earlier(
                line,
                node_at(root, way),
                way.len(),
                options.show_types,
            ),
{
    reveal_strlit("");
    nodes_have_lines(root, ""@, true, true, options.show_types, 0, way);
    let last = last_on_the_way(root, way, true);
    let line = choose|line: LineModel|
        root_lines(root, options).contains(line) && #[trigger] shows_node(
            line,
            node_at(root, way),
            0 + way.len(),
            last,
            options.show_types,
        );
    assert(shows_node(
        line,
        node_at(root, way),
        way.len(),
        ends_last(root, way),
        options.show_types,
    ));
}

} // verus!
