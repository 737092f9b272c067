//! What a dynamic call of an instance reaches: a candidate for each type that
//! stands behind its receiver, and what is not known of it.
use crate::lists::value_of;
use crate::model::{DispatchResolution, UnresolvedReason};
use crate::rust::calls::{dispatch_reasons, resolution_of};
use crate::rust::flow_laws::{added_reason_is_there, joint_flows_hold_both};
use crate::rust::join_laws::has_type;
use crate::rust::provenance::{has_concrete, nothing, substituted, substituted_to, DynModel};
use crate::rust::raw::{RawCallModel, RawModel, TableModel};
use crate::rust::respecialize::{candidate_position, with_instance};
use crate::rust::semantic::InstanceModel;
use crate::rust::specialize::{
    call_context, candidate_of, candidates_for, dispatched, flow_in_context, matters,
    target_in_context,
};
use vstd::prelude::*;

verus! {

/// Whether a type stands behind a value where the parameters stand for what a
/// caller passes.
pub open spec fn type_passed(flow: DynModel, context: Seq<DynModel>, id: usize) -> bool {
    has_type(flow, id) || exists|at: int|
        0 <= at < flow.parameters.len() && (#[trigger] flow.parameters[at]) < context.len()
            && has_type(context[flow.parameters[at] as int], id)
}

/// Whether a value is not known to the end for a reason, where the parameters
/// stand for what a caller passes.
pub open spec fn reason_passed(
    flow: DynModel,
    context: Seq<DynModel>,
    reason: UnresolvedReason,
) -> bool {
    flow.unresolved_reasons.contains(reason) || exists|at: int|
        0 <= at < flow.parameters.len() && (if (#[trigger] flow.parameters[at]) < context.len() {
            context[flow.parameters[at] as int].unresolved_reasons.contains(reason)
        } else {
            reason == UnresolvedReason::AnalysisLimit
        })
}

spec fn type_passed_to(flow: DynModel, context: Seq<DynModel>, count: int, id: usize) -> bool {
    has_type(flow, id) || exists|at: int|
        0 <= at < count && (#[trigger] flow.parameters[at]) < context.len() && has_type(
            context[flow.parameters[at] as int],
            id,
        )
}

spec fn reason_passed_to(
    flow: DynModel,
    context: Seq<DynModel>,
    count: int,
    reason: UnresolvedReason,
) -> bool {
    flow.unresolved_reasons.contains(reason) || exists|at: int|
        0 <= at < count && (if (#[trigger] flow.parameters[at]) < context.len() {
            context[flow.parameters[at] as int].unresolved_reasons.contains(reason)
        } else {
            reason == UnresolvedReason::AnalysisLimit
        })
}

proof fn types_are_told(flow: DynModel, id: usize)
    ensures
        has_type(flow, id) == has_concrete(flow.concrete, id),
{
}

proof fn passed_values_are_joint(
    flow: DynModel,
    context: Seq<DynModel>,
    count: int,
    id: usize,
    reason: UnresolvedReason,
)
    requires
        0 <= count <= flow.parameters.len(),
    ensures
        has_type(substituted_to(flow, context, count), id) == type_passed_to(
            flow,
            context,
            count,
            id,
        ),
        substituted_to(flow, context, count).unresolved_reasons.contains(reason)
            == reason_passed_to(flow, context, count, reason),
    decreases count,
{
    let after = substituted_to(flow, context, count);
    if count <= 0 {
        types_are_told(after, id);
        types_are_told(flow, id);
    } else {
        passed_values_are_joint(flow, context, count - 1, id, reason);
        let before = substituted_to(flow, context, count - 1);
        let parameter = flow.parameters[count - 1];
        if type_passed_to(flow, context, count - 1, id) && !has_type(flow, id) {
            let at = choose|at: int|
                0 <= at < count - 1 && (#[trigger] flow.parameters[at]) < context.len()
                    && has_type(context[flow.parameters[at] as int], id);
            assert(flow.parameters[at] < context.len());
        }
        if reason_passed_to(flow, context, count - 1, reason)
            && !flow.unresolved_reasons.contains(reason) {
            let at = choose|at: int|
                0 <= at < count - 1 && (if (#[trigger] flow.parameters[at]) < context.len() {
                    context[flow.parameters[at] as int].unresolved_reasons.contains(reason)
                } else {
                    reason == UnresolvedReason::AnalysisLimit
                });
            assert(flow.parameters[at] == flow.parameters[at]);
        }
        assert(parameter == flow.parameters[count - 1]);
        if parameter < context.len() {
            let passed = context[parameter as int];
            joint_flows_hold_both(before, passed, id, 0, reason);
            types_are_told(after, id);
            types_are_told(before, id);
            types_are_told(passed, id);
        } else {
            added_reason_is_there(
                before.unresolved_reasons,
                UnresolvedReason::AnalysisLimit,
                reason,
            );
            types_are_told(after, id);
            types_are_told(before, id);
        }
    }
}

/// For one caller, a value is of the types that the function itself puts behind
/// it and of those that the caller passes; and what is not known of either is
/// not known of it.
pub proof fn values_in_context_are_told(
    flow: DynModel,
    context: Seq<DynModel>,
    id: usize,
    reason: UnresolvedReason,
)
    ensures
        has_type(flow_in_context(flow, context), id) == type_passed(flow, context, id),
        flow_in_context(flow, context).unresolved_reasons.contains(reason) == reason_passed(
            flow,
            context,
            reason,
        ),
{
    let passed = substituted(flow, context);
    let count = flow.parameters.len() as int;
    passed_values_are_joint(flow, context, count, id, reason);
    joint_flows_hold_both(nothing(), passed, id, 0, reason);
    let result = flow_in_context(flow, context);
    types_are_told(result, id);
    types_are_told(passed, id);
    types_are_told(nothing(), id);
    assert(!has_type(nothing(), id));
}

proof fn candidate_position_is_inside(
    candidates: Seq<InstanceModel>,
    key: Seq<char>,
    index: nat,
)
    requires
        index <= candidates.len(),
    ensures
        candidate_position(candidates, key, index) <= candidates.len(),
    decreases candidates.len() - index,
{
    if index < candidates.len() && crate::text::text_less(candidates[index as int].key, key) {
        candidate_position_is_inside(candidates, key, index + 1);
    }
}

/// Whether a candidate of a key is in a list.
pub open spec fn has_candidate(candidates: Seq<InstanceModel>, key: Seq<char>) -> bool {
    exists|at: int| 0 <= at < candidates.len() && (#[trigger] candidates[at]).key == key
}

proof fn added_candidates_are_there(
    candidates: Seq<InstanceModel>,
    candidate: InstanceModel,
    key: Seq<char>,
)
    requires
        has_candidate(candidates, key) || key == candidate.key,
    ensures
        has_candidate(with_instance(candidates, candidate), key),
{
    candidate_position_is_inside(candidates, candidate.key, 0);
    let place = candidate_position(candidates, candidate.key, 0) as int;
    let after = with_instance(candidates, candidate);
    if place < candidates.len() && candidates[place].key == candidate.key {
        assert(after[place].key == candidate.key);
    } else {
        assert(after[place] == candidate);
        if has_candidate(candidates, key) {
            let at = choose|at: int|
                0 <= at < candidates.len() && (#[trigger] candidates[at]).key == key;
            if at < place {
                assert(after[at] == candidates[at]);
            } else {
                assert(after[at + 1] == candidates[at]);
            }
        }
    }
}

proof fn types_have_candidates(
    functions: Seq<RawModel>,
    table: TableModel,
    dispatch: usize,
    concrete: Seq<crate::rust::mir::ConcreteModel>,
    arguments: Seq<DynModel>,
    context: Seq<DynModel>,
    count: int,
    at: int,
    name: Seq<char>,
)
    requires
        0 <= at < count <= concrete.len(),
        value_of(table.entries, (dispatch, concrete[at].id)) == Some(name),
    ensures
        has_candidate(
            candidates_for(functions, table, dispatch, concrete, arguments, context, count).0,
            candidate_of(functions, table, name, arguments, context).0.key,
        ),
    decreases count,
{
    let key = candidate_of(functions, table, name, arguments, context).0.key;
    let before = candidates_for(
        functions,
        table,
        dispatch,
        concrete,
        arguments,
        context,
        count - 1,
    ).0;
    if at < count - 1 {
        types_have_candidates(
            functions,
            table,
            dispatch,
            concrete,
            arguments,
            context,
            count - 1,
            at,
            name,
        );
    }
    match dispatched(table, dispatch, concrete[count - 1].id) {
        Some(other) => {
            added_candidates_are_there(
                before,
                candidate_of(functions, table, other, arguments, context).0,
                key,
            );
        },
        None => {},
    }
}

/// A dynamic call of an instance has a candidate for each type that stands
/// behind its receiver, from the function itself or from its caller, if the
/// type has a method for the call. The call is open exactly where something is
/// not known of the receiver.
pub proof fn no_candidate_is_missing(
    functions: Seq<RawModel>,
    table: TableModel,
    call: RawCallModel,
    context: Seq<DynModel>,
    id: usize,
    name: Seq<char>,
    reason: UnresolvedReason,
)
    requires
        call.target is Dynamic,
    ensures
        target_in_context(functions, table, call, context).0 is Dynamic,
        ({
            let target = target_in_context(functions, table, call, context).0;
            let receiver = call.target->receiver;
            &&& type_passed(receiver, context, id) && value_of(
                table.entries,
                (call.target->dispatch, id),
            ) == Some(name) ==> has_candidate(
                target->candidates,
                candidate_of(functions, table, name, call.argument_flows, context).0.key,
            )
            &&& target->unresolved_reasons.contains(reason) == reason_passed(
                receiver,
                context,
                reason,
            )
            &&& target->open == (exists|other: UnresolvedReason| #[trigger]
                reason_passed(receiver, context, other))
        }),
{
    let receiver = call.target->receiver;
    let dispatch = call.target->dispatch;
    let resolved = flow_in_context(receiver, context);
    let target = target_in_context(functions, table, call, context).0;
    values_in_context_are_told(receiver, context, id, reason);
    if type_passed(receiver, context, id) && value_of(table.entries, (dispatch, id)) == Some(
        name,
    ) {
        let at = choose|at: int|
            0 <= at < resolved.concrete.len() && (#[trigger] resolved.concrete[at]).id == id;
        types_have_candidates(
            functions,
            table,
            dispatch,
            resolved.concrete,
            call.argument_flows,
            context,
            resolved.concrete.len() as int,
            at,
            name,
        );
    }
    if resolved.unresolved_reasons.len() > 0 {
        let other = resolved.unresolved_reasons[0];
        assert(resolved.unresolved_reasons.contains(other));
        values_in_context_are_told(receiver, context, id, other);
        assert(reason_passed(receiver, context, other));
    }
    if exists|other: UnresolvedReason| #[trigger] reason_passed(receiver, context, other) {
        let other = choose|other: UnresolvedReason| #[trigger]
            reason_passed(receiver, context, other);
        values_in_context_are_told(receiver, context, id, other);
        assert(resolved.unresolved_reasons.contains(other));
    }
}

/// A call hands on to each parameter that can hold a dynamic value, or whose
/// values the callee calls or passes on, all that stands behind its argument
/// for this caller; and never less than that something is not known.
pub proof fn calls_hand_on_their_arguments(
    callee: RawModel,
    arguments: Seq<DynModel>,
    context: Seq<DynModel>,
    index: int,
    place: int,
    id: usize,
    reason: UnresolvedReason,
)
    requires
        0 <= index < callee.parameter_types.len() <= usize::MAX,
        index < arguments.len(),
        crate::text::contains(callee.parameter_types[index], "dyn "@) || (0 <= place
            < callee.calls.len() && ((callee.calls[place].target is Dynamic
            && callee.calls[place].target->receiver.parameters.contains(index as usize)) || exists|
            argument: int,
        |
            0 <= argument < callee.calls[place].argument_flows.len() && (
            #[trigger] callee.calls[place].argument_flows[argument]).parameters.contains(
                index as usize,
            ))),
    ensures
        ({
            let passed = call_context(callee, arguments, context)[index];
            &&& has_type(passed, id) == type_passed(arguments[index], context, id)
            &&& reason_passed(arguments[index], context, reason)
                ==> passed.unresolved_reasons.contains(reason)
            &&& passed.concrete.len() > 0 || passed.unresolved_reasons.len() > 0
        }),
{
    if !crate::text::contains(callee.parameter_types[index], "dyn "@) {
        assert(crate::rust::specialize::call_uses(callee.calls[place], index as usize));
    }
    assert(matters(callee, index));
    let passed = call_context(callee, arguments, context)[index];
    let resolved = flow_in_context(arguments[index], context);
    values_in_context_are_told(arguments[index], context, id, reason);
    if resolved.concrete.len() == 0 && resolved.unresolved_reasons.len() == 0 {
        assert(!has_type(resolved, id));
        assert(!has_type(passed, id));
    }
}

/// A dynamic call is resolved to the end where it has candidates and nothing is
/// open, in part where it has candidates and something is, and not at all where
/// it has none; a call that is not resolved has a reason.
pub proof fn resolutions_tell_what_is_known(
    candidates: nat,
    open: bool,
    reasons: Seq<UnresolvedReason>,
)
    ensures
        (resolution_of(candidates, open) == DispatchResolution::Complete) == (candidates > 0
            && !open),
        (resolution_of(candidates, open) == DispatchResolution::Partial) == (candidates > 0
            && open),
        (resolution_of(candidates, open) == DispatchResolution::Unresolved) == (candidates == 0),
        candidates == 0 ==> dispatch_reasons(reasons, candidates).len() > 0,
        reasons.len() > 0 ==> dispatch_reasons(reasons, candidates) == reasons,
        candidates > 0 ==> dispatch_reasons(reasons, candidates) == reasons,
{
}

} // verus!
