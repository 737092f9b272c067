//! What a call of a callable value reaches in OCaml: each function that the
//! value may be; and what values calls hand on.
use crate::model::{CandidateModel, DispatchResolution, SymbolModel};
use crate::ocaml::bindings::BindingModel;
use crate::ocaml::branch_laws::{may_be, merged_flows_may_be_both};
use crate::ocaml::callable::{FlowModel, IndexModel, PlaceModel};
use crate::ocaml::flow::{argument_flow, argument_flows, outcome_flow, passed};
use crate::ocaml::parameters::parameters_of;
use crate::ocaml::specialize::{
    call_candidates, call_context, call_flows, indirect_call, specialized_id, value_function,
    FLOW_LIMIT,
};
use crate::ocaml::symbols::function_at;
use vstd::prelude::*;

verus! {

/// Whether a function is a candidate of a call, in some context.
pub open spec fn is_candidate(candidates: Seq<CandidateModel>, target: SymbolModel) -> bool {
    exists|at: int| 0 <= at < candidates.len() && (#[trigger] candidates[at]).target == target
}

proof fn values_are_candidates(
    index: IndexModel,
    place: PlaceModel,
    called: Seq<(SymbolModel, usize)>,
    values: Seq<Seq<char>>,
    flow: Seq<SymbolModel>,
    member: Option<Seq<Seq<char>>>,
    count: int,
    at: int,
    target: int,
)
    requires
        0 <= at < count <= flow.len(),
        value_function(index, place, flow[at], member) == Some(target),
    ensures
        ({
            let id = index.functions[target].id;
            is_candidate(
                call_candidates(index, place, called, values, flow, member, count).0,
                specialized_id(id, call_context(index, place, values, id, called), called),
            )
        }),
    decreases count,
{
    let id = index.functions[target].id;
    let wanted = specialized_id(id, call_context(index, place, values, id, called), called);
    let before = call_candidates(index, place, called, values, flow, member, count - 1).0;
    let after = call_candidates(index, place, called, values, flow, member, count).0;
    if at < count - 1 {
        values_are_candidates(
            index,
            place,
            called,
            values,
            flow,
            member,
            count - 1,
            at,
            target,
        );
        let found = choose|found: int|
            0 <= found < before.len() && (#[trigger] before[found]).target == wanted;
        assert(after[found] == before[found]);
    } else {
        assert(after[before.len() as int].target == wanted);
    }
}

proof fn candidates_are_no_more(
    index: IndexModel,
    place: PlaceModel,
    called: Seq<(SymbolModel, usize)>,
    values: Seq<Seq<char>>,
    flow: Seq<SymbolModel>,
    member: Option<Seq<Seq<char>>>,
    count: int,
)
    requires
        0 <= count,
    ensures
        call_candidates(index, place, called, values, flow, member, count).0.len() <= count,
    decreases count,
{
    if count > 0 {
        candidates_are_no_more(index, place, called, values, flow, member, count - 1);
    }
}

/// A call of a value has a candidate for each function that the value may be,
/// and says why it may be others exactly where the value does. It is resolved
/// to the end where nothing is left open, and not at all where no function is
/// known.
pub proof fn values_lead_to_their_functions(
    index: IndexModel,
    place: PlaceModel,
    called: Seq<(SymbolModel, usize)>,
    values: Seq<Seq<char>>,
    flow: FlowModel,
    name: Seq<char>,
    symbol: SymbolModel,
    target: int,
)
    ensures
        ({
            let reached = indirect_call(index, place, called, values, flow, None, name).0;
            let id = index.functions[target].id;
            &&& reached is Dynamic
            &&& flow.candidates.contains(symbol) && function_at(index.functions, symbol) == Some(
                target,
            ) ==> is_candidate(
                reached->candidates,
                specialized_id(id, call_context(index, place, values, id, called), called),
            )
            &&& reached->unresolved_reasons == flow.reasons
            &&& reached->candidates.len() <= flow.candidates.len()
            &&& (reached->resolution == DispatchResolution::Complete) == (
            reached->candidates.len() > 0 && flow.reasons.len() == 0)
            &&& (reached->resolution == DispatchResolution::Partial) == (reached->candidates.len()
                > 0 && flow.reasons.len() > 0)
            &&& (reached->resolution == DispatchResolution::Unresolved) == (
            reached->candidates.len() == 0)
        }),
{
    let count = flow.candidates.len() as int;
    candidates_are_no_more(index, place, called, values, flow.candidates, None, count);
    if flow.candidates.contains(symbol) && function_at(index.functions, symbol) == Some(target) {
        let at = choose|at: int| 0 <= at < count && flow.candidates[at] == symbol;
        values_are_candidates(
            index,
            place,
            called,
            values,
            flow.candidates,
            None,
            count,
            at,
            target,
        );
    }
}

proof fn call_flows_are_flows(
    index: IndexModel,
    place: PlaceModel,
    bindings: Seq<BindingModel>,
    values: Seq<Seq<char>>,
    id: SymbolModel,
    called: Seq<(SymbolModel, usize)>,
    count: int,
    at: int,
)
    requires
        0 <= at < count,
    ensures
        call_flows(index, place, bindings, values, id, called, count).len() == count,
        called.contains((id, at as usize)) ==> call_flows(
            index,
            place,
            bindings,
            values,
            id,
            called,
            count,
        )[at] == (match passed(values, bindings[at]) {
            Some(value) => argument_flow(index, place, value, FLOW_LIMIT as nat),
            None => crate::ocaml::callable::unknown_flow(
                crate::model::UnresolvedReason::AnalysisLimit,
            ),
        }),
    decreases count,
{
    assert(call_flows(index, place, bindings, values, id, called, 0).len() == 0);
    if at < count - 1 {
        call_flows_are_flows(index, place, bindings, values, id, called, count - 1, at);
    } else if count - 1 > 0 {
        call_flows_are_flows(index, place, bindings, values, id, called, count - 1, 0);
    }
}

/// A call hands on to each parameter that its callee calls what its argument
/// may be; where there is no argument, that is left open.
pub proof fn calls_hand_on_their_values(
    index: IndexModel,
    place: PlaceModel,
    values: Seq<Seq<char>>,
    id: SymbolModel,
    called: Seq<(SymbolModel, usize)>,
    parameter: int,
)
    requires
        0 <= parameter < parameters_of(index.facts, id).len(),
        called.contains((id, parameter as usize)),
    ensures
        call_context(index, place, values, id, called).len() == parameters_of(
            index.facts,
            id,
        ).len(),
        match passed(values, parameters_of(index.facts, id)[parameter]) {
            Some(value) => call_context(index, place, values, id, called)[parameter]
                == argument_flow(index, place, value, FLOW_LIMIT as nat),
            None => call_context(index, place, values, id, called)[parameter].reasons.len() > 0,
        },
{
    let bindings = parameters_of(index.facts, id);
    call_flows_are_flows(
        index,
        place,
        bindings,
        values,
        id,
        called,
        bindings.len() as int,
        parameter,
    );
}

/// What a function may return holds what each of the expressions may be that
/// it can end with.
pub proof fn results_may_be_each_outcome(
    index: IndexModel,
    place: PlaceModel,
    outcomes: Seq<Seq<char>>,
    count: int,
    steps: nat,
    at: int,
)
    requires
        0 <= at < count <= outcomes.len(),
    ensures
        may_be(
            outcome_flow(index, place, outcomes, count, steps),
            argument_flow(index, place, outcomes[at], steps),
        ),
    decreases count,
{
    let before = outcome_flow(index, place, outcomes, count - 1, steps);
    merged_flows_may_be_both(before, argument_flow(index, place, outcomes[count - 1], steps));
    if at < count - 1 {
        results_may_be_each_outcome(index, place, outcomes, count - 1, steps, at);
    }
}

/// Where a function is applied, each of its parameters is what is passed for
/// it, and left open where nothing is.
pub proof fn parameters_are_what_is_passed(
    index: IndexModel,
    place: PlaceModel,
    bindings: Seq<BindingModel>,
    values: Seq<Seq<char>>,
    count: int,
    steps: nat,
    at: int,
)
    requires
        0 <= at < count <= bindings.len(),
    ensures
        argument_flows(index, place, bindings, values, count, steps).len() == count,
        match passed(values, bindings[at]) {
            Some(value) => argument_flows(index, place, bindings, values, count, steps)[at]
                == argument_flow(index, place, value, steps),
            None => argument_flows(index, place, bindings, values, count, steps)[at].reasons.len()
                > 0,
        },
    decreases count,
{
    assert(argument_flows(index, place, bindings, values, 0, steps).len() == 0);
    if at < count - 1 {
        parameters_are_what_is_passed(index, place, bindings, values, count - 1, steps, at);
    } else if count - 1 > 0 {
        parameters_are_what_is_passed(index, place, bindings, values, count - 1, steps, 0);
    }
}

} // verus!
