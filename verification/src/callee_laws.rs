//! What the nodes of a call tree say of the calls that they stand for.
use crate::graph::{function_at, has_function, resolved_call, GraphModel};
use crate::model::{
    symbol_text, CallRelation, CandidateModel, DispatchResolution, LabelModel, NodeModel,
    SiteModel, SymbolModel, TargetModel,
};
use crate::trees::{
    can_expand, expanded, expanded_call, expanded_direct, shows_callee, tree_of, ExpansionModel,
};
use vstd::prelude::*;

verus! {

/// Whether a node stands for a function, and shows a label.
pub open spec fn stands_for(node: NodeModel, target: SymbolModel, label: LabelModel) -> bool {
    node.key == symbol_text(target) && node.label == label
}

proof fn reached_functions_are_shown(
    graph: GraphModel,
    expansion: ExpansionModel,
    target: SymbolModel,
    label: LabelModel,
    relation: CallRelation,
    depth: nat,
    expand_target: bool,
    visiting: Seq<SymbolModel>,
)
    ensures
        stands_for(
            expanded_direct(
                graph,
                expansion,
                target,
                label,
                relation,
                depth,
                expand_target,
                visiting,
            ),
            target,
            label,
        ),
{
}

/// The node of a call stands for the function that the call reaches, and shows
/// the call as it is written. A call through a value says how much is known of
/// its targets, and shows each of them; a call of an unknown target says so.
pub proof fn calls_lead_to_their_callees(
    graph: GraphModel,
    expansion: ExpansionModel,
    symbol: SymbolModel,
    label: Option<LabelModel>,
    relation: CallRelation,
    depth: nat,
    visiting: Seq<SymbolModel>,
    index: int,
)
    requires
        has_function(graph, symbol),
        depth < expansion.max_depth,
        !visiting.contains(symbol),
        0 <= index < graph.functions[function_at(graph, symbol)->0 as int].calls.len(),
    ensures
        ({
            let call = graph.functions[function_at(graph, symbol)->0 as int].calls[index];
            let node = expanded(
                graph,
                expansion,
                symbol,
                label,
                relation,
                depth,
                visiting,
            ).children[index];
            match call.target {
                TargetModel::Direct(target) => stands_for(node, target, call.label),
                TargetModel::Unresolved => match resolved_call(graph, symbol, call.syntax) {
                    Some(target) => stands_for(node, target, call.label),
                    None => node.label == call.label && node.children.len() == 0,
                },
                TargetModel::Indirect { .. } => node.label.default == call.label.default
                    + " [indirect]"@ && node.children.len() == 0,
                TargetModel::Dynamic { dispatch, resolution, .. } => node.key == symbol_text(
                    dispatch,
                ) && node.label.default == call.label.default + match resolution {
                    DispatchResolution::Complete => Seq::empty(),
                    DispatchResolution::Partial => " [partial]"@,
                    DispatchResolution::Unresolved => " [unresolved]"@,
                },
            }
        }),
{
    let calls = graph.functions[function_at(graph, symbol)->0 as int].calls;
    let call = calls[index];
    let within = visiting.push(symbol);
    let shows = shows_callee(graph, symbol, calls, index);
    assert(expanded(graph, expansion, symbol, label, relation, depth, visiting).children[index]
        == expanded_call(graph, expansion, symbol, call, depth + 1, shows, within));
    match call.target {
        TargetModel::Direct(target) => {
            reached_functions_are_shown(
                graph,
                expansion,
                target,
                call.label,
                CallRelation::Call,
                depth + 1,
                shows,
                within,
            );
        },
        TargetModel::Unresolved => {
            if resolved_call(graph, symbol, call.syntax) is Some {
                reached_functions_are_shown(
                    graph,
                    expansion,
                    resolved_call(graph, symbol, call.syntax)->0,
                    call.label,
                    CallRelation::Call,
                    depth + 1,
                    shows,
                    within,
                );
            }
        },
        TargetModel::Dynamic { resolution, .. } => {
            if resolution == DispatchResolution::Complete {
                assert(call.label.default + Seq::<char>::empty() =~= call.label.default);
            }
        },
        _ => {},
    }
}

/// Each possible target of a call through a value is shown, in order, as long
/// as it is resolved and the tree may grow.
pub proof fn every_target_is_shown(
    graph: GraphModel,
    expansion: ExpansionModel,
    caller: SymbolModel,
    call: SiteModel,
    depth: nat,
    visiting: Seq<SymbolModel>,
    candidates: Seq<CandidateModel>,
    at: int,
)
    requires
        call.target is Dynamic,
        call.target->candidates == candidates,
        call.target->resolution != DispatchResolution::Unresolved,
        depth < expansion.max_depth,
        0 <= at < candidates.len(),
    ensures
        ({
            let node = expanded_call(graph, expansion, caller, call, depth, true, visiting);
            &&& at < node.children.len()
            &&& stands_for(node.children[at], candidates[at].target, candidates[at].label)
        }),
{
    reached_functions_are_shown(
        graph,
        expansion,
        candidates[at].target,
        candidates[at].label,
        CallRelation::DispatchCandidate,
        depth + 1,
        true,
        visiting,
    );
}

/// A call of a function that may be shown and is not being shown already shows
/// what that function calls: a child for each of its calls.
pub proof fn callees_are_expanded(
    graph: GraphModel,
    expansion: ExpansionModel,
    target: SymbolModel,
    label: LabelModel,
    depth: nat,
    visiting: Seq<SymbolModel>,
)
    requires
        can_expand(graph, expansion, target),
        depth < expansion.max_depth,
        !visiting.contains(target),
    ensures
        expanded_direct(
            graph,
            expansion,
            target,
            label,
            CallRelation::Call,
            depth,
            true,
            visiting,
        ).children.len() == graph.functions[function_at(graph, target)->0 as int].calls.len(),
{
}

/// The tree of an entry stands for the entry, and shows its own label.
pub proof fn trees_stand_for_their_entries(
    graph: GraphModel,
    expansion: ExpansionModel,
    entry: SymbolModel,
)
    requires
        has_function(graph, entry),
    ensures
        tree_of(graph, expansion, entry) is Some,
        stands_for(
            tree_of(graph, expansion, entry)->0,
            entry,
            graph.functions[function_at(graph, entry)->0 as int].label,
        ),
{
}

} // verus!
