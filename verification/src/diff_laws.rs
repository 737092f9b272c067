//! What holds of every comparison of call trees.
use crate::diff::{
    aligned, any_changes, best_score, collapsed, compared, compared_optional, depth_marker, equal_lists, equal_trees,
    has_changes, has_dispatch_context, keys_equivalent, marked, normal_key, normal_label,
    pair_weight, pairs_up, truncated, DiffModel, DiffStatus,
};
use crate::model::{CallRelation, NodeModel};
use vstd::prelude::*;

verus! {

/// Equivalence of trees is reflexive.
pub proof fn trees_equal_themselves(node: NodeModel)
    ensures
        equal_trees(node, node),
    decreases node,
{
    assert forall|index: int| #![trigger node.children[index]]
        0 <= index < node.children.len() implies equal_trees(
        node.children[index],
        node.children[index],
    ) by {
        trees_equal_themselves(node.children[index]);
    }
}

/// A tree compared with itself shows no change.
pub proof fn same_tree_has_no_changes(node: NodeModel)
    ensures
        !has_changes(compared(node, node)),
    decreases node,
{
    assert forall|index: int| #![trigger node.children[index]]
        0 <= index < node.children.len() implies equal_trees(
        node.children[index],
        node.children[index],
    ) by {
        trees_equal_themselves(node.children[index]);
    }
    let result = compared(node, node);
    assert(equal_lists(node.children, node.children));
    assert forall|index: int| #![trigger result.children[index]]
        0 <= index < result.children.len() implies !has_changes(result.children[index]) by {
        same_tree_has_no_changes(node.children[index]);
    }
}

/// More generally, trees that differ at most in where their lambdas stand
/// show no change.
pub proof fn equal_trees_have_no_changes(before: NodeModel, after: NodeModel)
    requires
        equal_trees(before, after),
    ensures
        !has_changes(compared(before, after)),
    decreases before,
{
    let result = compared(before, after);
    assert(equal_lists(before.children, after.children));
    assert forall|index: int| #![trigger result.children[index]]
        0 <= index < result.children.len() implies !has_changes(result.children[index]) by {
        assert(equal_trees(before.children[index], after.children[index]));
        equal_trees_have_no_changes(before.children[index], after.children[index]);
    }
}

/// Whether two trees are the same but for the types in their labels and the
/// places of their calls.
pub open spec fn same_but_for_types(before: NodeModel, after: NodeModel) -> bool
    decreases before,
{
    &&& before.key == after.key
    &&& before.label.default == after.label.default
    &&& before.relation == after.relation
    &&& before.children.len() == after.children.len()
    &&& forall|index: int| #![trigger before.children[index]]
        0 <= index < before.children.len() ==> same_but_for_types(
            before.children[index],
            after.children[index],
        )
}

proof fn types_leave_trees_equal(before: NodeModel, after: NodeModel)
    requires
        same_but_for_types(before, after),
    ensures
        equal_trees(before, after),
    decreases before,
{
    assert forall|index: int| #![trigger before.children[index]]
        0 <= index < before.children.len() implies equal_trees(
        before.children[index],
        after.children[index],
    ) by {
        types_leave_trees_equal(before.children[index], after.children[index]);
    }
}

/// Types in labels, and where calls stand, are no change of their own.
pub proof fn types_are_no_change(before: NodeModel, after: NodeModel)
    requires
        same_but_for_types(before, after),
    ensures
        !has_changes(compared(before, after)),
{
    types_leave_trees_equal(before, after);
    equal_trees_have_no_changes(before, after);
}

/// What is there on one side only counts as a change.
pub proof fn one_sided_trees_are_changes(node: NodeModel, status: DiffStatus)
    requires
        status != DiffStatus::Same,
    ensures
        has_changes(marked(node, status)),
{
}

/// Cutting a comparison at any depth hides no change and invents none.
pub proof fn truncation_keeps_changes(node: DiffModel, depth: nat)
    ensures
        has_changes(truncated(node, depth)) == has_changes(node),
    decreases node,
{
    let cut = truncated(node, depth);
    if depth == 0 {
        if any_changes(node.children) {
            assert(cut.children[0] == depth_marker(node.key));
            assert(has_changes(cut.children[0]));
            let witness = choose|index: int| #![trigger node.children[index]]
                0 <= index < node.children.len() && has_changes(node.children[index]);
            assert(has_changes(node.children[witness]));
        } else {
            assert(cut.children.len() == 0);
            assert forall|index: int| #![trigger node.children[index]]
                0 <= index < node.children.len() implies !has_changes(node.children[index]) by {}
        }
    } else {
        assert forall|index: int| 0 <= index < node.children.len() implies has_changes(
            #[trigger] cut.children[index],
        ) == has_changes(node.children[index]) by {
            truncation_keeps_changes(node.children[index], (depth - 1) as nat);
        }
        if has_changes(node) && node.status == DiffStatus::Same {
            let witness = choose|index: int| #![trigger node.children[index]]
                0 <= index < node.children.len() && has_changes(node.children[index]);
            assert(has_changes(cut.children[witness]));
        }
        if has_changes(cut) && node.status == DiffStatus::Same {
            let witness = choose|index: int| #![trigger cut.children[index]]
                0 <= index < cut.children.len() && has_changes(cut.children[index]);
            assert(has_changes(node.children[witness]));
        }
    }
}

/// Whether no node lies more than `depth` levels below the root.
pub open spec fn within_depth(node: DiffModel, depth: nat) -> bool
    decreases node,
{
    forall|index: int| #![trigger node.children[index]]
        0 <= index < node.children.len() ==> depth > 0 && within_depth(
            node.children[index],
            (depth - 1) as nat,
        )
}

/// A cut comparison is one level deeper than the cut at most: the markers.
pub proof fn truncation_bounds_depth(node: DiffModel, depth: nat)
    ensures
        within_depth(truncated(node, depth), depth + 1),
    decreases node,
{
    let cut = truncated(node, depth);
    assert forall|index: int| #![trigger cut.children[index]]
        0 <= index < cut.children.len() implies within_depth(cut.children[index], depth) by {
        if depth == 0 {
            assert(cut.children[index] == depth_marker(node.key));
        } else {
            truncation_bounds_depth(node.children[index], (depth - 1) as nat);
        }
    }
}

/// Cutting twice at one depth is the same as cutting once.
pub proof fn truncation_is_idempotent(node: DiffModel, depth: nat)
    ensures
        truncated(truncated(node, depth), depth) == truncated(node, depth),
    decreases node,
{
    let cut = truncated(node, depth);
    let again = truncated(cut, depth);
    if depth == 0 {
        if any_changes(node.children) {
            assert(cut.children[0] == depth_marker(node.key));
            assert(has_changes(cut.children[0]));
            assert(any_changes(cut.children));
        } else {
            assert(!any_changes(cut.children));
        }
        assert(again.children =~= cut.children);
    } else {
        assert forall|index: int| 0 <= index < node.children.len() implies again.children[index]
            == cut.children[index] by {
            truncation_is_idempotent(node.children[index], (depth - 1) as nat);
        }
        assert(again.children =~= cut.children);
    }
}

/// Hiding unchanged subtrees hides no change and invents none, and keeps
/// every dispatch candidate's surroundings.
pub proof fn collapse_keeps_changes(node: DiffModel)
    ensures
        has_changes(collapsed(node)) == has_changes(node),
        has_dispatch_context(collapsed(node)) == has_dispatch_context(node),
    decreases node,
{
    let result = collapsed(node);
    if has_changes(node) || has_dispatch_context(node) {
        assert forall|index: int| 0 <= index < node.children.len() implies has_changes(
            #[trigger] result.children[index],
        ) == has_changes(node.children[index]) && has_dispatch_context(result.children[index])
            == has_dispatch_context(node.children[index]) by {
            collapse_keeps_changes(node.children[index]);
        }
        if has_changes(node) && node.status == DiffStatus::Same {
            let witness = choose|index: int| #![trigger node.children[index]]
                0 <= index < node.children.len() && has_changes(node.children[index]);
            assert(has_changes(result.children[witness]));
        }
        if has_changes(result) && node.status == DiffStatus::Same {
            let witness = choose|index: int| #![trigger result.children[index]]
                0 <= index < result.children.len() && has_changes(result.children[index]);
            assert(has_changes(node.children[witness]));
        }
        if has_dispatch_context(node) && node.relation != CallRelation::DispatchCandidate {
            let witness = choose|index: int| #![trigger node.children[index]]
                0 <= index < node.children.len() && has_dispatch_context(node.children[index]);
            assert(has_dispatch_context(result.children[witness]));
        }
        if has_dispatch_context(result) && node.relation != CallRelation::DispatchCandidate {
            let witness = choose|index: int| #![trigger result.children[index]]
                0 <= index < result.children.len() && has_dispatch_context(
                result.children[index],
            );
            assert(has_dispatch_context(node.children[witness]));
        }
    }
}

/// Hiding unchanged subtrees twice is the same as hiding them once.
pub proof fn collapse_is_idempotent(node: DiffModel)
    ensures
        collapsed(collapsed(node)) == collapsed(node),
    decreases node,
{
    let once = collapsed(node);
    let twice = collapsed(once);
    collapse_keeps_changes(node);
    if has_changes(node) || has_dispatch_context(node) {
        assert forall|index: int| 0 <= index < node.children.len() implies twice.children[index]
            == once.children[index] by {
            collapse_is_idempotent(node.children[index]);
        }
    }
    assert(twice.children =~= once.children);
}

/// The tree after, as a comparison holds it: all but what was removed.
pub open spec fn after_side(node: DiffModel) -> NodeModel
    decreases node,
{
    NodeModel {
        key: node.key,
        callsite: node.callsite,
        label: node.label,
        relation: node.relation,
        children: after_sides(node.children),
    }
}

/// The trees after, as a list of comparisons holds them.
pub open spec fn after_sides(nodes: Seq<DiffModel>) -> Seq<NodeModel>
    decreases nodes,
{
    if nodes.len() == 0 {
        Seq::empty()
    } else {
        let rest = after_sides(nodes.subrange(1, nodes.len() as int));
        if nodes[0].status == DiffStatus::Removed {
            rest
        } else {
            seq![after_side(nodes[0])] + rest
        }
    }
}

proof fn after_sides_of_cons(first: DiffModel, rest: Seq<DiffModel>)
    ensures
        after_sides(seq![first] + rest) == (if first.status == DiffStatus::Removed {
            after_sides(rest)
        } else {
            seq![after_side(first)] + after_sides(rest)
        }),
{
    let all = seq![first] + rest;
    assert(all.subrange(1, all.len() as int) =~= rest);
}

proof fn after_sides_pointwise(nodes: Seq<DiffModel>, trees: Seq<NodeModel>)
    requires
        nodes.len() == trees.len(),
        forall|index: int| #![trigger nodes[index]]
            0 <= index < nodes.len() ==> nodes[index].status != DiffStatus::Removed && after_side(
                nodes[index],
            ) == trees[index],
    ensures
        after_sides(nodes) == trees,
    decreases nodes.len(),
{
    if nodes.len() > 0 {
        let rest = nodes.subrange(1, nodes.len() as int);
        let others = trees.subrange(1, trees.len() as int);
        assert forall|index: int| #![trigger rest[index]]
            0 <= index < rest.len() implies rest[index].status != DiffStatus::Removed && after_side(
            rest[index],
        ) == others[index] by {
            assert(rest[index] == nodes[index + 1]);
        }
        after_sides_pointwise(rest, others);
        assert(nodes[0].status != DiffStatus::Removed);
        assert(trees =~= seq![trees[0]] + others);
    } else {
        assert(trees =~= Seq::empty());
    }
}

proof fn added_trees_hold_the_tree_after(node: NodeModel)
    ensures
        after_side(marked(node, DiffStatus::Added)) == node,
    decreases node,
{
    let result = marked(node, DiffStatus::Added);
    assert forall|index: int| #![trigger result.children[index]]
        0 <= index < result.children.len() implies result.children[index].status
        != DiffStatus::Removed && after_side(result.children[index]) == node.children[index] by {
        added_trees_hold_the_tree_after(node.children[index]);
    }
    after_sides_pointwise(result.children, node.children);
}

/// A comparison loses nothing of the tree after: without what was removed, it
/// is that tree, labels, relations and order and all.
pub proof fn comparison_holds_the_tree_after(before: NodeModel, after: NodeModel)
    ensures
        after_side(compared(before, after)) == after,
    decreases before, 1nat, 0nat,
{
    let result = compared(before, after);
    if equal_lists(before.children, after.children) {
        assert forall|index: int| #![trigger result.children[index]]
            0 <= index < result.children.len() implies result.children[index].status
            != DiffStatus::Removed && after_side(result.children[index])
            == after.children[index] by {
            comparison_holds_the_tree_after(before.children[index], after.children[index]);
        }
        after_sides_pointwise(result.children, after.children);
    } else {
        alignment_holds_the_list_after(before.children, after.children, 0, 0);
        assert(after.children.skip(0) =~= after.children);
    }
}

/// An alignment loses nothing of the list after.
pub proof fn alignment_holds_the_list_after(
    before: Seq<NodeModel>,
    after: Seq<NodeModel>,
    i: nat,
    j: nat,
)
    requires
        i <= before.len(),
        j <= after.len(),
    ensures
        after_sides(aligned(before, after, i, j)) == after.skip(j as int),
    decreases before, 0nat, before.len() - i + after.len() - j,
{
    if j < after.len() {
        assert(after.skip(j as int) =~= seq![after[j as int]] + after.skip((j + 1) as int));
    }
    if i < before.len() && j < after.len() && pairs_up(before, after, i, j) {
        comparison_holds_the_tree_after(before[i as int], after[j as int]);
        alignment_holds_the_list_after(before, after, i + 1, j + 1);
        after_sides_of_cons(
            compared(before[i as int], after[j as int]),
            aligned(before, after, i + 1, j + 1),
        );
    } else if i < before.len() && (j >= after.len() || best_score(before, after, i + 1, j)
        >= best_score(before, after, i, j + 1)) {
        alignment_holds_the_list_after(before, after, i + 1, j);
        after_sides_of_cons(
            marked(before[i as int], DiffStatus::Removed),
            aligned(before, after, i + 1, j),
        );
    } else if j < after.len() {
        added_trees_hold_the_tree_after(after[j as int]);
        alignment_holds_the_list_after(before, after, i, j + 1);
        after_sides_of_cons(
            marked(after[j as int], DiffStatus::Added),
            aligned(before, after, i, j + 1),
        );
    }
}

/// A tree without what does not count in a comparison: where calls and lambdas
/// stand, and types.
#[verifier::ext_equal]
pub struct Shape {
    pub key: Seq<char>,
    pub label: Seq<char>,
    pub relation: CallRelation,
    pub children: Seq<Shape>,
}

/// The shape of a tree.
pub open spec fn shape(node: NodeModel) -> Shape
    decreases node,
{
    Shape {
        key: normal_key(node.key),
        label: normal_label(node.label.default),
        relation: node.relation,
        children: Seq::new(
            node.children.len(),
            |index: int|
                if 0 <= index < node.children.len() {
                    shape(node.children[index])
                } else {
                    arbitrary()
                },
        ),
    }
}

/// The shape of the tree before, as a comparison holds it: all but what was
/// added.
pub open spec fn before_side(node: DiffModel) -> Shape
    decreases node,
{
    Shape {
        key: normal_key(node.key),
        label: normal_label(
            match node.before_label {
                Some(label) => label.default,
                None => node.label.default,
            },
        ),
        relation: match node.before_relation {
            Some(relation) => relation,
            None => node.relation,
        },
        children: before_sides(node.children),
    }
}

/// The shapes of the trees before, as a list of comparisons holds them.
pub open spec fn before_sides(nodes: Seq<DiffModel>) -> Seq<Shape>
    decreases nodes,
{
    if nodes.len() == 0 {
        Seq::empty()
    } else {
        let rest = before_sides(nodes.subrange(1, nodes.len() as int));
        if nodes[0].status == DiffStatus::Added {
            rest
        } else {
            seq![before_side(nodes[0])] + rest
        }
    }
}

proof fn before_sides_of_cons(first: DiffModel, rest: Seq<DiffModel>)
    ensures
        before_sides(seq![first] + rest) == (if first.status == DiffStatus::Added {
            before_sides(rest)
        } else {
            seq![before_side(first)] + before_sides(rest)
        }),
{
    let all = seq![first] + rest;
    assert(all.subrange(1, all.len() as int) =~= rest);
}

proof fn before_sides_pointwise(nodes: Seq<DiffModel>, trees: Seq<NodeModel>)
    requires
        nodes.len() == trees.len(),
        forall|index: int| #![trigger nodes[index]]
            0 <= index < nodes.len() ==> nodes[index].status != DiffStatus::Added && before_side(
                nodes[index],
            ) == shape(trees[index]),
    ensures
        before_sides(nodes) == Seq::new(trees.len(), |index: int| shape(trees[index])),
    decreases nodes.len(),
{
    let shapes = Seq::new(trees.len(), |index: int| shape(trees[index]));
    if nodes.len() > 0 {
        let rest = nodes.subrange(1, nodes.len() as int);
        let others = trees.subrange(1, trees.len() as int);
        assert forall|index: int| #![trigger rest[index]]
            0 <= index < rest.len() implies rest[index].status != DiffStatus::Added && before_side(
            rest[index],
        ) == shape(others[index]) by {
            assert(rest[index] == nodes[index + 1]);
        }
        before_sides_pointwise(rest, others);
        assert(nodes[0].status != DiffStatus::Added);
        assert(shapes =~= seq![shape(trees[0])] + Seq::new(
            others.len(),
            |index: int| shape(others[index]),
        ));
    } else {
        assert(shapes =~= Seq::empty());
    }
}

proof fn removed_trees_hold_the_tree_before(node: NodeModel)
    ensures
        before_side(marked(node, DiffStatus::Removed)) == shape(node),
    decreases node,
{
    let result = marked(node, DiffStatus::Removed);
    assert forall|index: int| #![trigger result.children[index]]
        0 <= index < result.children.len() implies result.children[index].status
        != DiffStatus::Added && before_side(result.children[index]) == shape(
        node.children[index],
    ) by {
        removed_trees_hold_the_tree_before(node.children[index]);
    }
    before_sides_pointwise(result.children, node.children);
    assert(before_side(result).children =~= shape(node).children);
}

/// A comparison of two calls of one target loses nothing of the tree before:
/// without what was added, it has the shape of that tree.
pub proof fn comparison_holds_the_tree_before(before: NodeModel, after: NodeModel)
    requires
        keys_equivalent(before.key, after.key),
    ensures
        before_side(compared(before, after)) == shape(before),
    decreases before, 1nat, 0nat,
{
    let result = compared(before, after);
    if equal_lists(before.children, after.children) {
        assert forall|index: int| #![trigger result.children[index]]
            0 <= index < result.children.len() implies result.children[index].status
            != DiffStatus::Added && before_side(result.children[index]) == shape(
            before.children[index],
        ) by {
            assert(equal_trees(before.children[index], after.children[index]));
            comparison_holds_the_tree_before(before.children[index], after.children[index]);
        }
        before_sides_pointwise(result.children, before.children);
    } else {
        alignment_holds_the_list_before(before.children, after.children, 0, 0);
        assert(before.children.skip(0) =~= before.children);
    }
    assert(before_side(result).children =~= shape(before).children);
}

/// An alignment loses nothing of the list before.
pub proof fn alignment_holds_the_list_before(
    before: Seq<NodeModel>,
    after: Seq<NodeModel>,
    i: nat,
    j: nat,
)
    requires
        i <= before.len(),
        j <= after.len(),
    ensures
        before_sides(aligned(before, after, i, j)) == Seq::new(
            (before.len() - i) as nat,
            |index: int| shape(before[i + index]),
        ),
    decreases before, 0nat, before.len() - i + after.len() - j,
{
    let left = Seq::new((before.len() - i) as nat, |index: int| shape(before[i + index]));
    if i < before.len() {
        let rest = Seq::new(
            (before.len() - (i + 1)) as nat,
            |index: int| shape(before[i + 1 + index]),
        );
        assert(left =~= seq![shape(before[i as int])] + rest);
    } else {
        assert(left =~= Seq::empty());
    }
    if i < before.len() && j < after.len() && pairs_up(before, after, i, j) {
        comparison_holds_the_tree_before(before[i as int], after[j as int]);
        alignment_holds_the_list_before(before, after, i + 1, j + 1);
        before_sides_of_cons(
            compared(before[i as int], after[j as int]),
            aligned(before, after, i + 1, j + 1),
        );
    } else if i < before.len() && (j >= after.len() || best_score(before, after, i + 1, j)
        >= best_score(before, after, i, j + 1)) {
        removed_trees_hold_the_tree_before(before[i as int]);
        alignment_holds_the_list_before(before, after, i + 1, j);
        before_sides_of_cons(
            marked(before[i as int], DiffStatus::Removed),
            aligned(before, after, i + 1, j),
        );
    } else if j < after.len() {
        alignment_holds_the_list_before(before, after, i, j + 1);
        before_sides_of_cons(
            marked(after[j as int], DiffStatus::Added),
            aligned(before, after, i, j + 1),
        );
    }
}

/// Whether the pairs from `k` on are pairs of calls of one target each, in
/// order on both sides, at or behind `i` and `j`.
pub open spec fn is_pairing(
    before: Seq<NodeModel>,
    after: Seq<NodeModel>,
    pairs: Seq<(nat, nat)>,
    k: nat,
    i: nat,
    j: nat,
) -> bool
    decreases pairs.len() - k,
{
    k >= pairs.len() || {
        let (p, q) = pairs[k as int];
        &&& i <= p < before.len()
        &&& j <= q < after.len()
        &&& pair_weight(before[p as int], after[q as int]) is Some
        &&& is_pairing(before, after, pairs, k + 1, p + 1, q + 1)
    }
}

/// What the pairs from `k` on are worth together.
pub open spec fn pairing_weight(
    before: Seq<NodeModel>,
    after: Seq<NodeModel>,
    pairs: Seq<(nat, nat)>,
    k: nat,
) -> nat
    decreases pairs.len() - k,
{
    if k >= pairs.len() {
        0
    } else {
        let (p, q) = pairs[k as int];
        pair_weight(before[p as int], after[q as int])->0 + pairing_weight(
            before,
            after,
            pairs,
            k + 1,
        )
    }
}

proof fn score_falls(before: Seq<NodeModel>, after: Seq<NodeModel>, i: nat, j: nat, p: nat, q: nat)
    requires
        i <= p,
        j <= q,
    ensures
        best_score(before, after, p, q) <= best_score(before, after, i, j),
    decreases p - i + q - j,
{
    if i < p {
        score_falls(before, after, i + 1, j, p, q);
        if !(i < before.len() && j < after.len()) {
            assert(best_score(before, after, i + 1, j) == 0);
        }
    } else if j < q {
        score_falls(before, after, i, j + 1, p, q);
        if !(i < before.len() && j < after.len()) {
            assert(best_score(before, after, i, j + 1) == 0);
        }
    }
}

/// No pairing of the calls of two lists, in order, is worth more than the best
/// score.
pub proof fn no_pairing_is_worth_more(
    before: Seq<NodeModel>,
    after: Seq<NodeModel>,
    pairs: Seq<(nat, nat)>,
    k: nat,
    i: nat,
    j: nat,
)
    requires
        is_pairing(before, after, pairs, k, i, j),
    ensures
        pairing_weight(before, after, pairs, k) <= best_score(before, after, i, j),
    decreases pairs.len() - k,
{
    if k < pairs.len() {
        let (p, q) = pairs[k as int];
        no_pairing_is_worth_more(before, after, pairs, k + 1, p + 1, q + 1);
        score_falls(before, after, i, j, p, q);
    }
}

/// What the pairs that an alignment takes are worth together.
pub open spec fn aligned_weight(
    before: Seq<NodeModel>,
    after: Seq<NodeModel>,
    i: nat,
    j: nat,
) -> nat
    decreases before.len() - i + after.len() - j,
{
    if i < before.len() && j < after.len() {
        if pairs_up(before, after, i, j) {
            pair_weight(before[i as int], after[j as int])->0 + aligned_weight(
                before,
                after,
                i + 1,
                j + 1,
            )
        } else if best_score(before, after, i + 1, j) >= best_score(before, after, i, j + 1) {
            aligned_weight(before, after, i + 1, j)
        } else {
            aligned_weight(before, after, i, j + 1)
        }
    } else {
        0
    }
}

/// An alignment takes pairs that are worth the best score together.
pub proof fn alignment_is_best(before: Seq<NodeModel>, after: Seq<NodeModel>, i: nat, j: nat)
    ensures
        aligned_weight(before, after, i, j) == best_score(before, after, i, j),
    decreases before.len() - i + after.len() - j,
{
    if i < before.len() && j < after.len() {
        alignment_is_best(before, after, i + 1, j + 1);
        alignment_is_best(before, after, i + 1, j);
        alignment_is_best(before, after, i, j + 1);
    }
}

/// Whether every modified node that is shown carries its previous label. A back
/// edge shows neither a previous label nor what lies under it.
pub open spec fn carries_previous_labels(node: DiffModel) -> bool
    decreases node,
{
    node.relation == CallRelation::BackEdge || {
        &&& node.status == DiffStatus::Modified ==> node.before_label is Some
        &&& forall|index: int| #![trigger node.children[index]]
            0 <= index < node.children.len() ==> carries_previous_labels(node.children[index])
    }
}

proof fn marked_trees_carry_labels(node: NodeModel, status: DiffStatus)
    requires
        status != DiffStatus::Modified,
    ensures
        carries_previous_labels(marked(node, status)),
    decreases node,
{
    let result = marked(node, status);
    assert forall|index: int| #![trigger result.children[index]]
        0 <= index < result.children.len() implies carries_previous_labels(
        result.children[index],
    ) by {
        marked_trees_carry_labels(node.children[index], status);
    }
}

proof fn alignments_carry_labels(before: Seq<NodeModel>, after: Seq<NodeModel>, i: nat, j: nat)
    requires
        i <= before.len(),
        j <= after.len(),
    ensures
        forall|index: int| #![trigger aligned(before, after, i, j)[index]]
            0 <= index < aligned(before, after, i, j).len() ==> carries_previous_labels(
                aligned(before, after, i, j)[index],
            ),
    decreases before, 0nat, before.len() - i + after.len() - j,
{
    let all = aligned(before, after, i, j);
    if i < before.len() && j < after.len() && pairs_up(before, after, i, j) {
        comparisons_carry_labels(before[i as int], after[j as int]);
        alignments_carry_labels(before, after, i + 1, j + 1);
        assert forall|index: int| #![trigger all[index]]
            0 <= index < all.len() implies carries_previous_labels(all[index]) by {
            if index > 0 {
                assert(all[index] == aligned(before, after, i + 1, j + 1)[index - 1]);
            }
        }
    } else if i < before.len() && (j >= after.len() || best_score(before, after, i + 1, j)
        >= best_score(before, after, i, j + 1)) {
        marked_trees_carry_labels(before[i as int], DiffStatus::Removed);
        alignments_carry_labels(before, after, i + 1, j);
        assert forall|index: int| #![trigger all[index]]
            0 <= index < all.len() implies carries_previous_labels(all[index]) by {
            if index > 0 {
                assert(all[index] == aligned(before, after, i + 1, j)[index - 1]);
            }
        }
    } else if j < after.len() {
        marked_trees_carry_labels(after[j as int], DiffStatus::Added);
        alignments_carry_labels(before, after, i, j + 1);
        assert forall|index: int| #![trigger all[index]]
            0 <= index < all.len() implies carries_previous_labels(all[index]) by {
            if index > 0 {
                assert(all[index] == aligned(before, after, i, j + 1)[index - 1]);
            }
        }
    }
}

/// In a comparison, every modified node carries its previous label.
pub proof fn comparisons_carry_labels(before: NodeModel, after: NodeModel)
    ensures
        carries_previous_labels(compared(before, after)),
    decreases before, 1nat, 0nat,
{
    let result = compared(before, after);
    if equal_lists(before.children, after.children) {
        assert forall|index: int| #![trigger result.children[index]]
            0 <= index < result.children.len() implies carries_previous_labels(
            result.children[index],
        ) by {
            comparisons_carry_labels(before.children[index], after.children[index]);
        }
    } else {
        alignments_carry_labels(before.children, after.children, 0, 0);
        assert(result.children == aligned(before.children, after.children, 0, 0));
        assert forall|index: int| #![trigger result.children[index]]
            0 <= index < result.children.len() implies carries_previous_labels(
            result.children[index],
        ) by {
            assert(carries_previous_labels(
                aligned(before.children, after.children, 0, 0)[index],
            ));
        }
    }
}

/// A whole comparison, one-sided or not, carries its previous labels.
pub proof fn optional_comparisons_carry_labels(
    before: Option<NodeModel>,
    after: Option<NodeModel>,
)
    ensures
        match compared_optional(before, after) {
            Some(node) => carries_previous_labels(node),
            None => before is None && after is None,
        },
{
    match (before, after) {
        (Some(before), Some(after)) => comparisons_carry_labels(before, after),
        (Some(before), None) => marked_trees_carry_labels(before, DiffStatus::Removed),
        (None, Some(after)) => marked_trees_carry_labels(after, DiffStatus::Added),
        (None, None) => {},
    }
}

/// Cutting and hiding keep the previous labels.
pub proof fn views_carry_labels(node: DiffModel, depth: nat)
    requires
        carries_previous_labels(node),
    ensures
        carries_previous_labels(truncated(node, depth)),
        carries_previous_labels(collapsed(node)),
    decreases node,
{
    if node.relation != CallRelation::BackEdge {
        let cut = truncated(node, depth);
        assert forall|index: int| #![trigger cut.children[index]]
            0 <= index < cut.children.len() implies carries_previous_labels(cut.children[index]) by {
            if depth == 0 {
                assert(cut.children[index] == depth_marker(node.key));
            } else {
                assert(carries_previous_labels(node.children[index]));
                views_carry_labels(node.children[index], (depth - 1) as nat);
            }
        }
        let hidden = collapsed(node);
        assert forall|index: int| #![trigger hidden.children[index]]
            0 <= index < hidden.children.len() implies carries_previous_labels(
            hidden.children[index],
        ) by {
            assert(carries_previous_labels(node.children[index]));
            views_carry_labels(node.children[index], 0);
        }
    }
}

} // verus!
