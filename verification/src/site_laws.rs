//! Where calls stand has no part in their comparison.
use crate::diff::{
    aligned, best_score, child_weight, children_weight, compared, descendant_weight,
    equal_children, equal_lists, equal_trees, left_over, marked, pair_weight, pairs_up, DiffModel,
    DiffStatus,
};
use crate::model::NodeModel;
use vstd::prelude::*;

verus! {

/// A tree without where its calls stand.
pub open spec fn unplaced(node: NodeModel) -> NodeModel
    decreases node,
{
    NodeModel {
        callsite: None,
        children: Seq::new(
            node.children.len(),
            |index: int|
                if 0 <= index < node.children.len() {
                    unplaced(node.children[index])
                } else {
                    arbitrary()
                },
        ),
        ..node
    }
}

/// Trees without where their calls stand.
pub open spec fn unplaced_list(nodes: Seq<NodeModel>) -> Seq<NodeModel> {
    Seq::new(nodes.len(), |index: int| unplaced(nodes[index]))
}

/// A comparison without where the calls in it stand.
pub open spec fn unplaced_diff(node: DiffModel) -> DiffModel
    decreases node,
{
    DiffModel {
        callsite: None,
        children: Seq::new(
            node.children.len(),
            |index: int|
                if 0 <= index < node.children.len() {
                    unplaced_diff(node.children[index])
                } else {
                    arbitrary()
                },
        ),
        ..node
    }
}

/// Comparisons without where the calls in them stand.
pub open spec fn unplaced_diffs(nodes: Seq<DiffModel>) -> Seq<DiffModel> {
    Seq::new(nodes.len(), |index: int| unplaced_diff(nodes[index]))
}

proof fn unplaced_children(node: NodeModel)
    ensures
        unplaced(node).children == unplaced_list(node.children),
{
    assert(unplaced(node).children =~= unplaced_list(node.children));
}

proof fn equality_needs_no_places(before: NodeModel, after: NodeModel)
    ensures
        equal_trees(unplaced(before), unplaced(after)) == equal_trees(before, after),
    decreases before,
{
    let left = unplaced(before);
    let right = unplaced(after);
    if before.children.len() == after.children.len() {
        assert forall|index: int| 0 <= index < before.children.len() implies equal_trees(
            #[trigger] left.children[index],
            right.children[index],
        ) == equal_trees(before.children[index], after.children[index]) by {
            equality_needs_no_places(before.children[index], after.children[index]);
        }
        if equal_trees(left, right) {
            assert forall|index: int| #![trigger before.children[index]]
                0 <= index < before.children.len() implies equal_trees(
                before.children[index],
                after.children[index],
            ) by {
                assert(equal_trees(left.children[index], right.children[index]));
            }
        }
        if equal_trees(before, after) {
            assert forall|index: int| #![trigger left.children[index]]
                0 <= index < left.children.len() implies equal_trees(
                left.children[index],
                right.children[index],
            ) by {
                assert(equal_trees(before.children[index], after.children[index]));
            }
        }
    }
}

proof fn lists_need_no_places(before: Seq<NodeModel>, after: Seq<NodeModel>)
    ensures
        equal_lists(unplaced_list(before), unplaced_list(after)) == equal_lists(before, after),
{
    let left = unplaced_list(before);
    let right = unplaced_list(after);
    if before.len() == after.len() {
        assert forall|index: int| 0 <= index < before.len() implies equal_trees(
            #[trigger] left[index],
            right[index],
        ) == equal_trees(before[index], after[index]) by {
            equality_needs_no_places(before[index], after[index]);
        }
        if equal_lists(left, right) {
            assert forall|index: int| #![trigger before[index]]
                0 <= index < before.len() implies equal_trees(before[index], after[index]) by {
                assert(equal_trees(left[index], right[index]));
            }
        }
        if equal_lists(before, after) {
            assert forall|index: int| #![trigger left[index]]
                0 <= index < left.len() implies equal_trees(left[index], right[index]) by {
                assert(equal_trees(before[index], after[index]));
            }
        }
    }
}

proof fn weights_need_no_places(before: NodeModel, after: NodeModel, depth: nat)
    ensures
        descendant_weight(unplaced(before), unplaced(after), depth) == descendant_weight(
            before,
            after,
            depth,
        ),
    decreases depth, 1nat, 0nat,
{
    unplaced_children(before);
    unplaced_children(after);
    if depth > 0 && before.children.len() == after.children.len() {
        list_weights_need_no_places(
            before.children,
            after.children,
            depth,
            before.children.len(),
        );
    }
}

proof fn list_weights_need_no_places(
    before: Seq<NodeModel>,
    after: Seq<NodeModel>,
    depth: nat,
    count: nat,
)
    requires
        count <= before.len() == after.len(),
    ensures
        children_weight(unplaced_list(before), unplaced_list(after), depth, count)
            == children_weight(before, after, depth, count),
    decreases depth, 0nat, count,
{
    if depth > 0 && count > 0 {
        let index = count - 1;
        list_weights_need_no_places(before, after, depth, (count - 1) as nat);
        weights_need_no_places(before[index], after[index], (depth - 1) as nat);
        assert(unplaced_list(before)[index] == unplaced(before[index]));
        assert(unplaced_list(after)[index] == unplaced(after[index]));
        assert(child_weight(unplaced(before[index]), unplaced(after[index]), depth)
            == child_weight(before[index], after[index], depth));
    }
}

proof fn pairing_needs_no_places(before: NodeModel, after: NodeModel)
    ensures
        pair_weight(unplaced(before), unplaced(after)) == pair_weight(before, after),
{
    let left = unplaced(before);
    let right = unplaced(after);
    weights_need_no_places(before, after, 2);
    reveal_with_fuel(unplaced, 2);
    if before.children.len() == after.children.len() {
        assert forall|index: int| 0 <= index < before.children.len() implies (
        #[trigger] left.children[index]).key == before.children[index].key
            && left.children[index].label == before.children[index].label
            && right.children[index].key == after.children[index].key
            && right.children[index].label == after.children[index].label by {}
        if equal_children(before, after) {
            assert forall|index: int| #![trigger left.children[index]]
                0 <= index < left.children.len() implies crate::diff::keys_equivalent(
                left.children[index].key,
                right.children[index].key,
            ) && crate::diff::equal_labels(
                left.children[index].label.default,
                right.children[index].label.default,
            ) by {
                let child = before.children[index];
            }
        }
        if equal_children(left, right) {
            assert forall|index: int| #![trigger before.children[index]]
                0 <= index < before.children.len() implies crate::diff::keys_equivalent(
                before.children[index].key,
                after.children[index].key,
            ) && crate::diff::equal_labels(
                before.children[index].label.default,
                after.children[index].label.default,
            ) by {
                let child = left.children[index];
            }
        }
    }
}

proof fn scores_need_no_places(before: Seq<NodeModel>, after: Seq<NodeModel>, i: nat, j: nat)
    ensures
        best_score(unplaced_list(before), unplaced_list(after), i, j) == best_score(
            before,
            after,
            i,
            j,
        ),
    decreases before.len() - i + after.len() - j,
{
    if i < before.len() && j < after.len() {
        pairing_needs_no_places(before[i as int], after[j as int]);
        scores_need_no_places(before, after, i + 1, j + 1);
        scores_need_no_places(before, after, i + 1, j);
        scores_need_no_places(before, after, i, j + 1);
    }
}

proof fn marking_needs_no_places(node: NodeModel, status: DiffStatus)
    ensures
        unplaced_diff(marked(node, status)) == marked(unplaced(node), status),
    decreases node,
{
    let left = unplaced_diff(marked(node, status));
    let right = marked(unplaced(node), status);
    assert forall|index: int| 0 <= index < left.children.len() implies #[trigger] left.children[index]
        == right.children[index] by {
        marking_needs_no_places(node.children[index], status);
        assert(marked(node, status).children[index] == marked(node.children[index], status));
        assert(unplaced(node).children[index] == unplaced(node.children[index]));
    }
    assert(left.children =~= right.children);
}

proof fn one_more(first: DiffModel, rest: Seq<DiffModel>)
    ensures
        unplaced_diffs(seq![first] + rest) == seq![unplaced_diff(first)] + unplaced_diffs(rest),
{
    let all = seq![first] + rest;
    assert forall|index: int| 0 <= index < all.len() implies #[trigger] unplaced_diffs(all)[index]
        == (seq![unplaced_diff(first)] + unplaced_diffs(rest))[index] by {
        if index > 0 {
            assert(all[index] == rest[index - 1]);
        }
    }
    assert(unplaced_diffs(all) =~= seq![unplaced_diff(first)] + unplaced_diffs(rest));
}

proof fn alignment_needs_no_places(before: Seq<NodeModel>, after: Seq<NodeModel>, i: nat, j: nat)
    ensures
        unplaced_diffs(aligned(before, after, i, j)) == aligned(
            unplaced_list(before),
            unplaced_list(after),
            i,
            j,
        ),
    decreases before, left_over(before.len(), i) + left_over(after.len(), j),
{
    let left = unplaced_list(before);
    let right = unplaced_list(after);
    if i < before.len() && j < after.len() {
        pairing_needs_no_places(before[i as int], after[j as int]);
        scores_need_no_places(before, after, i, j);
        scores_need_no_places(before, after, i + 1, j + 1);
        scores_need_no_places(before, after, i + 1, j);
        scores_need_no_places(before, after, i, j + 1);
        if pairs_up(before, after, i, j) {
            comparison_needs_no_places(before[i as int], after[j as int]);
            alignment_needs_no_places(before, after, i + 1, j + 1);
            one_more(
                compared(before[i as int], after[j as int]),
                aligned(before, after, i + 1, j + 1),
            );
        } else if best_score(before, after, i + 1, j) >= best_score(before, after, i, j + 1) {
            marking_needs_no_places(before[i as int], DiffStatus::Removed);
            alignment_needs_no_places(before, after, i + 1, j);
            one_more(
                marked(before[i as int], DiffStatus::Removed),
                aligned(before, after, i + 1, j),
            );
        } else {
            marking_needs_no_places(after[j as int], DiffStatus::Added);
            alignment_needs_no_places(before, after, i, j + 1);
            one_more(
                marked(after[j as int], DiffStatus::Added),
                aligned(before, after, i, j + 1),
            );
        }
    } else if i < before.len() {
        marking_needs_no_places(before[i as int], DiffStatus::Removed);
        alignment_needs_no_places(before, after, i + 1, j);
        one_more(
            marked(before[i as int], DiffStatus::Removed),
            aligned(before, after, i + 1, j),
        );
    } else if j < after.len() {
        marking_needs_no_places(after[j as int], DiffStatus::Added);
        alignment_needs_no_places(before, after, i, j + 1);
        one_more(marked(after[j as int], DiffStatus::Added), aligned(before, after, i, j + 1));
    } else {
        assert(unplaced_diffs(aligned(before, after, i, j)) =~= aligned(left, right, i, j));
    }
}

/// Where calls stand has no part in a comparison: without their places, the
/// comparison of two trees is that of the trees without theirs.
pub proof fn comparison_needs_no_places(before: NodeModel, after: NodeModel)
    ensures
        unplaced_diff(compared(before, after)) == compared(unplaced(before), unplaced(after)),
    decreases before, 0nat,
{
    let result = compared(before, after);
    let left = unplaced_diff(result);
    let right = compared(unplaced(before), unplaced(after));
    unplaced_children(before);
    unplaced_children(after);
    lists_need_no_places(before.children, after.children);
    if equal_lists(before.children, after.children) {
        assert forall|index: int| 0 <= index < left.children.len() implies #[trigger] left.children[index]
            == right.children[index] by {
            comparison_needs_no_places(before.children[index], after.children[index]);
            assert(result.children[index] == compared(
                before.children[index],
                after.children[index],
            ));
        }
    } else {
        alignment_needs_no_places(before.children, after.children, 0, 0);
        assert(left.children =~= unplaced_diffs(result.children));
    }
    assert(left.children =~= right.children);
}

} // verus!
