//! How much it is worth to pair two calls: most where nothing changed.
use crate::diff::{
    child_weight, children_weight, descendant_weight, equal_children, equal_labels,
    keys_equivalent, pair_weight,
};
use crate::model::NodeModel;
use vstd::prelude::*;

verus! {

proof fn descendants_pair_best_with_themselves(node: NodeModel, other: NodeModel, depth: nat)
    ensures
        descendant_weight(node, other, depth) <= descendant_weight(node, node, depth),
    decreases depth, 1nat, 0nat,
{
    if depth > 0 && node.children.len() == other.children.len() {
        children_pair_best_with_themselves(
            node.children,
            other.children,
            depth,
            node.children.len(),
        );
    }
}

proof fn children_pair_best_with_themselves(
    nodes: Seq<NodeModel>,
    others: Seq<NodeModel>,
    depth: nat,
    count: nat,
)
    ensures
        children_weight(nodes, others, depth, count) <= children_weight(
            nodes,
            nodes,
            depth,
            count,
        ),
    decreases depth, 0nat, count,
{
    if depth > 0 && count > 0 {
        children_pair_best_with_themselves(nodes, others, depth, (count - 1) as nat);
        descendants_pair_best_with_themselves(
            nodes[count - 1],
            others[count - 1],
            (depth - 1) as nat,
        );
        let node = nodes[count - 1];
        assert(child_weight(node, others[count - 1], depth) <= child_weight(node, node, depth));
    }
}

/// Two calls can be paired exactly where they are the same function. No call
/// is worth more as the partner of another than the call itself; one with
/// another label, another way of being called, or other calls below it is worth
/// less.
pub proof fn calls_pair_best_with_themselves(node: NodeModel, other: NodeModel)
    ensures
        (pair_weight(node, other) is Some) == keys_equivalent(node.key, other.key),
        pair_weight(node, node) is Some,
        pair_weight(node, other) is Some ==> pair_weight(node, other)->0 <= pair_weight(
            node,
            node,
        )->0,
        pair_weight(node, other) is Some && !equal_labels(
            node.label.default,
            other.label.default,
        ) ==> pair_weight(node, other)->0 < pair_weight(node, node)->0,
        pair_weight(node, other) is Some && node.relation != other.relation ==> pair_weight(
            node,
            other,
        )->0 < pair_weight(node, node)->0,
        pair_weight(node, other) is Some && node.children.len() != other.children.len()
            ==> pair_weight(node, other)->0 < pair_weight(node, node)->0,
{
    descendants_pair_best_with_themselves(node, other, 2);
    assert(equal_children(node, node));
    if node.children.len() != other.children.len() {
        assert(!equal_children(node, other));
    }
}

} // verus!
