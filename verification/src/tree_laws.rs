//! What holds of every call tree.
use crate::diff::left_over;
use crate::files::selects;
use crate::graph::{function_at, has_function, resolved_call, GraphModel};
use crate::model::{
    symbol_text, CallRelation, CandidateModel, DispatchResolution, LabelModel, NodeModel, SiteModel,
    SymbolModel, TargetModel,
};
use crate::trees::{
    at_site, can_expand, expanded, expanded_call, expanded_direct, expanded_dynamic, leaf,
    shows_callee, tree_of, unresolved_tail, ExpansionModel,
};
use vstd::prelude::*;

verus! {

/// Every call of an expanded function stays visible, in order and under its
/// own identity; of equal callees only what they call may be left out.
pub proof fn calls_stay_visible(
    graph: GraphModel,
    expansion: ExpansionModel,
    symbol: SymbolModel,
    label: Option<LabelModel>,
    relation: CallRelation,
    depth: nat,
    visiting: Seq<SymbolModel>,
    index: int,
)
    requires
        has_function(graph, symbol),
        depth < expansion.max_depth,
        !visiting.contains(symbol),
    ensures
        ({
            let calls = graph.functions[function_at(graph, symbol)->0 as int].calls;
            let node = expanded(graph, expansion, symbol, label, relation, depth, visiting);
            &&& node.children.len() == calls.len()
            &&& 0 <= index < calls.len() ==> node.children[index].callsite == Some(calls[index].id)
        }),
{
    let calls = graph.functions[function_at(graph, symbol)->0 as int].calls;
    if 0 <= index < calls.len() {
        assert(expanded(
            graph,
            expansion,
            symbol,
            label,
            relation,
            depth,
            visiting,
        ).children[index] == expanded_call(
            graph,
            expansion,
            symbol,
            calls[index],
            depth + 1,
            shows_callee(graph, symbol, calls, index),
            visiting.push(symbol),
        ));
    }
}

/// Whether every back edge below a node has no children and has the key of an
/// ancestor.
pub open spec fn back_edges_lead_up(node: NodeModel, ancestors: Seq<Seq<char>>) -> bool
    decreases node,
{
    &&& node.relation == CallRelation::BackEdge ==> node.children.len() == 0 && ancestors.contains(
        node.key,
    )
    &&& forall|index: int| #![trigger node.children[index]]
        0 <= index < node.children.len() ==> back_edges_lead_up(
            node.children[index],
            ancestors.push(node.key),
        )
}

/// Whether no node lies more than `depth` levels below the root.
pub open spec fn no_deeper_than(node: NodeModel, depth: nat) -> bool
    decreases node,
{
    forall|index: int| #![trigger node.children[index]]
        0 <= index < node.children.len() ==> depth > 0 && no_deeper_than(
            node.children[index],
            (depth - 1) as nat,
        )
}

/// Whether the texts of symbols are among some keys.
pub open spec fn keys_hold(keys: Seq<Seq<char>>, symbols: Seq<SymbolModel>) -> bool {
    forall|symbol: SymbolModel| #[trigger]
        symbols.contains(symbol) ==> keys.contains(symbol_text(symbol))
}

proof fn keys_hold_more(
    keys: Seq<Seq<char>>,
    symbols: Seq<SymbolModel>,
    key: Seq<char>,
)
    requires
        keys_hold(keys, symbols),
    ensures
        keys_hold(keys.push(key), symbols),
        keys.push(key).contains(key),
{
    let more = keys.push(key);
    assert(more[keys.len() as int] == key);
    assert forall|symbol: SymbolModel| #[trigger] symbols.contains(symbol) implies more.contains(
        symbol_text(symbol),
    ) by {
        let k = choose|k: int| 0 <= k < keys.len() && keys[k] == symbol_text(symbol);
        assert(more[k] == symbol_text(symbol));
    }
}

/// How many levels of a tree are left at a depth: those up to the greatest
/// depth, and one for the markers there, where there are markers.
pub open spec fn levels_left(expansion: ExpansionModel, depth: nat) -> nat {
    left_over(expansion.max_depth, depth) + if expansion.boundary_marker is Some {
        1nat
    } else {
        0
    }
}

proof fn expanded_shape(
    graph: GraphModel,
    expansion: ExpansionModel,
    symbol: SymbolModel,
    label: Option<LabelModel>,
    relation: CallRelation,
    depth: nat,
    visiting: Seq<SymbolModel>,
    keys: Seq<Seq<char>>,
)
    requires
        relation != CallRelation::BackEdge,
        keys_hold(keys, visiting),
    ensures
        back_edges_lead_up(
            expanded(graph, expansion, symbol, label, relation, depth, visiting),
            keys,
        ),
        no_deeper_than(
            expanded(graph, expansion, symbol, label, relation, depth, visiting),
            levels_left(expansion, depth),
        ),
    decreases left_over(expansion.max_depth, depth), 0nat,
{
    let node = expanded(graph, expansion, symbol, label, relation, depth, visiting);
    let bound = levels_left(expansion, depth);
    if depth >= expansion.max_depth {
        assert forall|index: int| #![trigger node.children[index]]
            0 <= index < node.children.len() implies back_edges_lead_up(
            node.children[index],
            keys.push(node.key),
        ) && no_deeper_than(node.children[index], 0) by {}
    } else if !visiting.contains(symbol) {
        let calls = graph.functions[function_at(graph, symbol)->0 as int].calls;
        let entered = visiting.push(symbol);
        let more = keys.push(node.key);
        keys_hold_more(keys, visiting, node.key);
        assert forall|other: SymbolModel| #[trigger] entered.contains(
            other,
        ) implies more.contains(symbol_text(other)) by {
            let k = choose|k: int| 0 <= k < entered.len() && entered[k] == other;
            if k < visiting.len() {
                assert(visiting[k] == other);
                assert(visiting.contains(other));
            }
        }
        assert forall|index: int| #![trigger node.children[index]]
            0 <= index < node.children.len() implies back_edges_lead_up(
            node.children[index],
            more,
        ) && no_deeper_than(node.children[index], (bound - 1) as nat) by {
            expanded_call_shape(
                graph,
                expansion,
                symbol,
                calls[index],
                depth + 1,
                shows_callee(graph, symbol, calls, index),
                entered,
                more,
            );
        }
    } else {
        assert(keys.contains(symbol_text(symbol)));
    }
}

proof fn site_keeps_shape(node: NodeModel, site: Seq<char>, keys: Seq<Seq<char>>, depth: nat)
    requires
        back_edges_lead_up(node, keys),
        no_deeper_than(node, depth),
    ensures
        back_edges_lead_up(at_site(node, site), keys),
        no_deeper_than(at_site(node, site), depth),
{
    let placed = at_site(node, site);
    assert(placed.children == node.children);
    if node.children.len() > 0 {
        let first = node.children[0];
        assert(depth > 0);
    }
    assert forall|index: int| #![trigger placed.children[index]]
        0 <= index < placed.children.len() implies back_edges_lead_up(
        placed.children[index],
        keys.push(placed.key),
    ) by {
        assert(placed.children[index] == node.children[index]);
    }
    assert forall|index: int| #![trigger placed.children[index]]
        0 <= index < placed.children.len() implies depth > 0 && no_deeper_than(
        placed.children[index],
        (depth - 1) as nat,
    ) by {
        assert(placed.children[index] == node.children[index]);
    }
}

#[verifier::rlimit(30)]
proof fn expanded_call_shape(
    graph: GraphModel,
    expansion: ExpansionModel,
    caller: SymbolModel,
    call: SiteModel,
    depth: nat,
    expand_target: bool,
    visiting: Seq<SymbolModel>,
    keys: Seq<Seq<char>>,
)
    requires
        keys_hold(keys, visiting),
    ensures
        back_edges_lead_up(
            expanded_call(graph, expansion, caller, call, depth, expand_target, visiting),
            keys,
        ),
        no_deeper_than(
            expanded_call(graph, expansion, caller, call, depth, expand_target, visiting),
            levels_left(expansion, depth),
        ),
    decreases left_over(expansion.max_depth, depth), 3nat,
{
    let bound = levels_left(expansion, depth);
    match call.target {
        TargetModel::Dynamic { dispatch, candidates, resolution, .. } => {
            let node = expanded_dynamic(
                graph,
                expansion,
                dispatch,
                call.label,
                candidates,
                resolution,
                depth,
                expand_target,
                visiting,
            );
            let more = keys.push(node.key);
            keys_hold_more(keys, visiting, node.key);
            assert forall|index: int| #![trigger node.children[index]]
                0 <= index < node.children.len() implies back_edges_lead_up(
                node.children[index],
                more,
            ) && no_deeper_than(node.children[index], (bound - 1) as nat) by {
                if index < candidates.len() {
                    expanded_direct_shape(
                        graph,
                        expansion,
                        candidates[index].target,
                        candidates[index].label,
                        CallRelation::DispatchCandidate,
                        depth + 1,
                        true,
                        visiting,
                        more,
                    );
                } else {
                    assert(node.children[index] == unresolved_tail(dispatch));
                }
            }
            site_keeps_shape(node, call.id, keys, bound);
        },
        TargetModel::Direct(target) => {
            expanded_direct_shape(
                graph,
                expansion,
                target,
                call.label,
                CallRelation::Call,
                depth,
                expand_target,
                visiting,
                keys,
            );
            site_keeps_shape(
                expanded_direct(
                    graph,
                    expansion,
                    target,
                    call.label,
                    CallRelation::Call,
                    depth,
                    expand_target,
                    visiting,
                ),
                call.id,
                keys,
                bound,
            );
        },
        TargetModel::Indirect { .. } => {},
        TargetModel::Unresolved => {
            if let Some(target) = resolved_call(graph, caller, call.syntax) {
                expanded_direct_shape(
                    graph,
                    expansion,
                    target,
                    call.label,
                    CallRelation::Call,
                    depth,
                    expand_target,
                    visiting,
                    keys,
                );
                site_keeps_shape(
                    expanded_direct(
                        graph,
                        expansion,
                        target,
                        call.label,
                        CallRelation::Call,
                        depth,
                        expand_target,
                        visiting,
                    ),
                    call.id,
                    keys,
                    bound,
                );
            }
        },
    }
}

proof fn expanded_direct_shape(
    graph: GraphModel,
    expansion: ExpansionModel,
    target: SymbolModel,
    label: LabelModel,
    relation: CallRelation,
    depth: nat,
    expand_target: bool,
    visiting: Seq<SymbolModel>,
    keys: Seq<Seq<char>>,
)
    requires
        relation != CallRelation::BackEdge,
        keys_hold(keys, visiting),
    ensures
        back_edges_lead_up(
            expanded_direct(
                graph,
                expansion,
                target,
                label,
                relation,
                depth,
                expand_target,
                visiting,
            ),
            keys,
        ),
        no_deeper_than(
            expanded_direct(
                graph,
                expansion,
                target,
                label,
                relation,
                depth,
                expand_target,
                visiting,
            ),
            levels_left(expansion, depth),
        ),
    decreases left_over(expansion.max_depth, depth), 1nat,
{
    if can_expand(graph, expansion, target) && expand_target {
        expanded_shape(
            graph,
            expansion,
            target,
            Some(label),
            relation,
            depth,
            visiting,
            keys,
        );
    }
}

/// In every call tree, a back edge has no children and has the key of one of
/// its ancestors.
pub proof fn back_edges_have_an_ancestor(
    graph: GraphModel,
    expansion: ExpansionModel,
    entry: SymbolModel,
)
    ensures
        tree_of(graph, expansion, entry) matches Some(tree) ==> back_edges_lead_up(
            tree,
            Seq::empty(),
        ),
{
    expanded_shape(
        graph,
        expansion,
        entry,
        None,
        CallRelation::Call,
        0,
        Seq::empty(),
        Seq::empty(),
    );
}

/// No call tree is deeper than its greatest depth, and one level for the
/// markers there, where the tree has markers.
pub proof fn trees_are_bounded(graph: GraphModel, expansion: ExpansionModel, entry: SymbolModel)
    ensures
        tree_of(graph, expansion, entry) matches Some(tree) ==> no_deeper_than(
            tree,
            levels_left(expansion, 0),
        ),
        expansion.boundary_marker is None ==> levels_left(expansion, 0) == expansion.max_depth,
{
    expanded_shape(
        graph,
        expansion,
        entry,
        None,
        CallRelation::Call,
        0,
        Seq::empty(),
        Seq::empty(),
    );
}

/// A call with several possible targets shows a tail of unknown ones just
/// where it is partly resolved, and no targets where it is not resolved.
pub proof fn tails_mark_partial_calls(
    graph: GraphModel,
    expansion: ExpansionModel,
    dispatch: SymbolModel,
    label: LabelModel,
    candidates: Seq<CandidateModel>,
    resolution: DispatchResolution,
    depth: nat,
    visiting: Seq<SymbolModel>,
)
    requires
        depth < expansion.max_depth,
    ensures
        ({
            let node = expanded_dynamic(
                graph,
                expansion,
                dispatch,
                label,
                candidates,
                resolution,
                depth,
                true,
                visiting,
            );
            match resolution {
                DispatchResolution::Complete => node.children.len() == candidates.len(),
                DispatchResolution::Partial => node.children.len() == candidates.len() + 1
                    && node.children.last() == unresolved_tail(dispatch),
                DispatchResolution::Unresolved => node.children.len() == 0,
            }
        }),
{
}

/// Where one file is looked at, a call of a function in another file is shown,
/// and what that function calls is not.
pub proof fn other_files_stay_closed(
    graph: GraphModel,
    expansion: ExpansionModel,
    target: SymbolModel,
    label: LabelModel,
    relation: CallRelation,
    depth: nat,
    visiting: Seq<SymbolModel>,
)
    requires
        has_function(graph, target),
        !selects(
            expansion.file,
            graph.functions[function_at(graph, target)->0 as int].span.file,
        ),
    ensures
        expanded_direct(graph, expansion, target, label, relation, depth, true, visiting) == leaf(
            symbol_text(target),
            label,
            relation,
        ),
{
}

} // verus!
