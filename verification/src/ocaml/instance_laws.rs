//! What holds of every specialized OCaml function: what its calls reach comes
//! from its own caller, and from no other.
use crate::model::{
    CandidateModel, FunctionModel, LabelModel, SiteModel, SymbolModel, SyntaxModel, TargetModel,
    UnresolvedReason, visible_syntax,
};
use crate::ocaml::bindings::OcamlParameterKind;
use crate::ocaml::callable::{flow_at, symbol_module, FlowModel, IndexModel, PlaceModel};
use crate::ocaml::expansion::{
    ends_after, first_work, function_in_context, next_item, outcome, reached_places, root_items,
    specialized, step, steps, taken_up, without_first,
};
use crate::ocaml::flow::argument_flow;
use crate::ocaml::labels::{call_arguments, candidate_label};
use crate::ocaml::parameters::{called_binding, parameters_of};
use crate::ocaml::scopes::local_value;
use crate::ocaml::specialize::{
    call_candidates, call_context, call_outcome, calls_in_context, root_context, specialized_id,
    value_function, CallFlowModel, FLOW_LIMIT,
};
use crate::ocaml::symbols::{places_are_in_range, resolved, target_function};
use crate::rust::specialize::first_uncovered_is_uncovered;
use vstd::prelude::*;

verus! {

/// Where a call of a function stands that is called with some values.
pub open spec fn place_of_call(
    id: SymbolModel,
    context: Seq<FlowModel>,
    call: SiteModel,
) -> PlaceModel {
    PlaceModel { caller: id, context, position: Some(call.span) }
}

/// What may be called where a call names no function: the values that are
/// known of it in the function's own context, and what is called in them where
/// they are modules.
pub open spec fn value_called(
    index: IndexModel,
    id: SymbolModel,
    context: Seq<FlowModel>,
    call: SiteModel,
) -> Option<(FlowModel, Option<Seq<Seq<char>>>)> {
    let place = place_of_call(id, context, call);
    match visible_syntax(call.syntax) {
        SyntaxModel::Expression(expression) => if call.target is Direct || call.target is Dynamic {
            None
        } else {
            Some((argument_flow(index, place, expression, FLOW_LIMIT as nat), None))
        },
        SyntaxModel::Path(parts) => match if parts.len() == 1 {
            local_value(index.facts, id, parts[0], Some(call.span))
        } else {
            None
        } {
            Some(fact) => Some((argument_flow(index, place, fact.value, FLOW_LIMIT as nat), None)),
            None => {
                let bindings = parameters_of(index.facts, id);
                match called_binding(parts, bindings, Some(call.span)) {
                    Some(parameter) => Some(
                        (
                            flow_at(context, parameter, UnresolvedReason::AnalysisLimit),
                            if bindings[parameter].kind == OcamlParameterKind::Module {
                                Some(parts.skip(1))
                            } else {
                                None
                            },
                        ),
                    ),
                    None => None,
                }
            },
        },
        _ => None,
    }
}

/// Whether a candidate of a call is the function that a value stands for,
/// called with what the call passes.
pub open spec fn is_for_value(
    index: IndexModel,
    called: Seq<(SymbolModel, usize)>,
    place: PlaceModel,
    values: Seq<Seq<char>>,
    member: Option<Seq<Seq<char>>>,
    candidate: CandidateModel,
    value: SymbolModel,
) -> bool {
    match value_function(index, place, value, member) {
        Some(target) => {
            let function = index.functions[target];
            candidate == CandidateModel {
                target: specialized_id(
                    function.id,
                    call_context(index, place, values, function.id, called),
                    called,
                ),
                label: LabelModel { default: candidate_label(function, values), typed: None },
            }
        },
        None => false,
    }
}

/// Whether a candidate of a call is there for one of the first `count` values.
pub open spec fn is_for_some_value(
    index: IndexModel,
    called: Seq<(SymbolModel, usize)>,
    place: PlaceModel,
    values: Seq<Seq<char>>,
    flow: Seq<SymbolModel>,
    member: Option<Seq<Seq<char>>>,
    candidate: CandidateModel,
    count: int,
) -> bool {
    exists|k: int|
        0 <= k < count && is_for_value(
            index,
            called,
            place,
            values,
            member,
            candidate,
            #[trigger] flow[k],
        )
}

/// Whether candidates are those that the first `count` values stand for.
pub open spec fn are_for_values(
    index: IndexModel,
    called: Seq<(SymbolModel, usize)>,
    place: PlaceModel,
    values: Seq<Seq<char>>,
    flow: Seq<SymbolModel>,
    member: Option<Seq<Seq<char>>>,
    candidates: Seq<CandidateModel>,
    count: int,
) -> bool {
    forall|candidate: CandidateModel| #[trigger]
        candidates.contains(candidate) == is_for_some_value(
            index,
            called,
            place,
            values,
            flow,
            member,
            candidate,
            count,
        )
}

/// Whether what a call reaches is what the values of its own context stand
/// for, where it names no function.
pub open spec fn is_own(
    index: IndexModel,
    called: Seq<(SymbolModel, usize)>,
    id: SymbolModel,
    context: Seq<FlowModel>,
    call: SiteModel,
    target: TargetModel,
) -> bool {
    match value_called(index, id, context, call) {
        Some((flow, member)) => match target {
            TargetModel::Dynamic { candidates, .. } => are_for_values(
                index,
                called,
                place_of_call(id, context, call),
                call_arguments(call),
                flow.candidates,
                member,
                candidates,
                flow.candidates.len() as int,
            ),
            _ => false,
        },
        None => true,
    }
}

/// The functions that a call of a specialized function leads to, with what it
/// passes.
pub open spec fn handed_on(
    index: IndexModel,
    called: Seq<(SymbolModel, usize)>,
    caller: (int, Seq<FlowModel>),
    call: int,
) -> Seq<(int, Seq<FlowModel>)> {
    let function = index.functions[caller.0];
    call_outcome(index, called, function.id, caller.1, function.calls[call]).1
}

/// Whether a function comes to be called with some values by at most `depth`
/// calls from one that is called from outside.
pub open spec fn comes_about(
    index: IndexModel,
    called: Seq<(SymbolModel, usize)>,
    item: (int, Seq<FlowModel>),
    depth: nat,
) -> bool
    decreases depth,
{
    &&& 0 <= item.0 < index.functions.len()
    &&& item.1 == root_context(index, called, index.functions[item.0].id) || (depth > 0 && exists|
        caller: (int, Seq<FlowModel>),
        call: int,
    |
        0 <= call < index.functions[caller.0].calls.len() && #[trigger] handed_on(
            index,
            called,
            caller,
            call,
        ).contains(item) && comes_about(index, called, caller, (depth - 1) as nat))
}

/// Whether a specialized function is one that is called with the values of one
/// caller, and what its calls reach comes from those values.
pub open spec fn is_of_item(
    index: IndexModel,
    called: Seq<(SymbolModel, usize)>,
    instance: FunctionModel,
    item: (int, Seq<FlowModel>),
) -> bool {
    let function = index.functions[item.0];
    &&& 0 <= item.0 < index.functions.len()
    &&& instance == function_in_context(index, called, function, item.1)
    &&& instance.calls.len() == function.calls.len()
    &&& forall|call: int|
        0 <= call < instance.calls.len() ==> is_own(
            index,
            called,
            function.id,
            item.1,
            function.calls[call],
            (#[trigger] instance.calls[call]).target,
        )
}

/// Whether a specialized function is that of one caller.
pub open spec fn has_own_caller(
    index: IndexModel,
    called: Seq<(SymbolModel, usize)>,
    instance: FunctionModel,
) -> bool {
    exists|item: (int, Seq<FlowModel>), depth: nat| #[trigger]
        comes_about(index, called, item, depth) && is_of_item(index, called, instance, item)
}

proof fn candidates_are_those_of_values(
    index: IndexModel,
    called: Seq<(SymbolModel, usize)>,
    place: PlaceModel,
    values: Seq<Seq<char>>,
    flow: Seq<SymbolModel>,
    member: Option<Seq<Seq<char>>>,
    count: int,
)
    requires
        0 <= count <= flow.len(),
    ensures
        are_for_values(
            index,
            called,
            place,
            values,
            flow,
            member,
            call_candidates(index, place, called, values, flow, member, count).0,
            count,
        ),
        forall|item: (int, Seq<FlowModel>)| #[trigger]
            call_candidates(index, place, called, values, flow, member, count).1.contains(item)
                ==> 0 <= item.0 < index.functions.len(),
    decreases count,
{
    let (all, pending) = call_candidates(index, place, called, values, flow, member, count);
    if count > 0 {
        candidates_are_those_of_values(index, called, place, values, flow, member, count - 1);
        let before = call_candidates(index, place, called, values, flow, member, count - 1);
        values_are_in_range(index, place, flow[count - 1], member);
        assert forall|candidate: CandidateModel| #[trigger]
            all.contains(candidate) == is_for_some_value(
                index,
                called,
                place,
                values,
                flow,
                member,
                candidate,
                count,
            ) by {
            assert(before.0.contains(candidate) == is_for_some_value(
                index,
                called,
                place,
                values,
                flow,
                member,
                candidate,
                count - 1,
            ));
            if all.contains(candidate) {
                let k = choose|k: int| 0 <= k < all.len() && all[k] == candidate;
                if k < before.0.len() {
                    assert(before.0[k] == candidate);
                    let j = choose|j: int|
                        0 <= j < count - 1 && is_for_value(
                            index,
                            called,
                            place,
                            values,
                            member,
                            candidate,
                            #[trigger] flow[j],
                        );
                    assert(is_for_value(
                        index,
                        called,
                        place,
                        values,
                        member,
                        candidate,
                        flow[j],
                    ));
                } else {
                    assert(is_for_value(
                        index,
                        called,
                        place,
                        values,
                        member,
                        candidate,
                        flow[count - 1],
                    ));
                }
            }
            if is_for_some_value(index, called, place, values, flow, member, candidate, count) {
                let j = choose|j: int|
                    0 <= j < count && is_for_value(
                        index,
                        called,
                        place,
                        values,
                        member,
                        candidate,
                        #[trigger] flow[j],
                    );
                if j < count - 1 {
                    assert(is_for_some_value(
                        index,
                        called,
                        place,
                        values,
                        flow,
                        member,
                        candidate,
                        count - 1,
                    ));
                    let k = choose|k: int| 0 <= k < before.0.len() && before.0[k] == candidate;
                    assert(all[k] == candidate);
                } else {
                    assert(all[before.0.len() as int] == candidate);
                }
            }
        }
        assert forall|item: (int, Seq<FlowModel>)| #[trigger]
            pending.contains(item) implies 0 <= item.0 < index.functions.len() by {
            let k = choose|k: int| 0 <= k < pending.len() && pending[k] == item;
            if k < before.1.len() {
                assert(before.1[k] == item);
                assert(before.1.contains(item));
            }
        }
    } else {
        assert(all.len() == 0);
        assert(pending.len() == 0);
    }
}

proof fn values_are_in_range(
    index: IndexModel,
    place: PlaceModel,
    value: SymbolModel,
    member: Option<Seq<Seq<char>>>,
)
    ensures
        value_function(index, place, value, member) matches Some(target) ==> 0 <= target
            < index.functions.len(),
{
    let count = index.functions.len() as int;
    match member {
        None => {
            places_are_in_range(index.functions, value, count);
        },
        Some(rest) => {
            if let Some(module) = symbol_module(value) {
                if let Some(target) = resolved(
                    index.functions,
                    index.known,
                    module + rest,
                    place.caller,
                    place.position,
                ) {
                    places_are_in_range(index.functions, target, count);
                }
            }
        },
    }
}

/// What a call reaches that names no function is what the values stand for
/// that the function's own caller passes or that the function itself has:
/// nothing is there for a value that only another caller passes.
pub proof fn candidates_are_the_callers_own(
    index: IndexModel,
    called: Seq<(SymbolModel, usize)>,
    id: SymbolModel,
    context: Seq<FlowModel>,
    call: SiteModel,
)
    ensures
        is_own(
            index,
            called,
            id,
            context,
            call,
            call_outcome(index, called, id, context, call).0,
        ),
{
    if let Some((flow, member)) = value_called(index, id, context, call) {
        candidates_are_those_of_values(
            index,
            called,
            place_of_call(id, context, call),
            call_arguments(call),
            flow.candidates,
            member,
            flow.candidates.len() as int,
        );
    }
}

proof fn handed_on_in_range(
    index: IndexModel,
    called: Seq<(SymbolModel, usize)>,
    id: SymbolModel,
    context: Seq<FlowModel>,
    call: SiteModel,
)
    ensures
        forall|item: (int, Seq<FlowModel>)| #[trigger]
            call_outcome(index, called, id, context, call).1.contains(item) ==> 0 <= item.0
                < index.functions.len(),
{
    match value_called(index, id, context, call) {
        Some((flow, member)) => {
            candidates_are_those_of_values(
                index,
                called,
                place_of_call(id, context, call),
                call_arguments(call),
                flow.candidates,
                member,
                flow.candidates.len() as int,
            );
        },
        None => {
            if let Some(symbol) = target_function(index.functions, call.target) {
                places_are_in_range(index.functions, symbol, index.functions.len() as int);
            }
        },
    }
}

proof fn calls_in_turn(
    index: IndexModel,
    called: Seq<(SymbolModel, usize)>,
    id: SymbolModel,
    context: Seq<FlowModel>,
    calls: Seq<SiteModel>,
    count: int,
)
    requires
        0 <= count <= calls.len(),
    ensures
        ({
            let (made, pending) = calls_in_context(index, called, id, context, calls, count);
            &&& made.len() == count
            &&& forall|k: int|
                0 <= k < count ==> (#[trigger] made[k]).target == call_outcome(
                    index,
                    called,
                    id,
                    context,
                    calls[k],
                ).0
            &&& forall|item: (int, Seq<FlowModel>)| #[trigger]
                pending.contains(item) ==> exists|k: int|
                    0 <= k < count && call_outcome(
                        index,
                        called,
                        id,
                        context,
                        #[trigger] calls[k],
                    ).1.contains(item)
        }),
    decreases count,
{
    if count > 0 {
        calls_in_turn(index, called, id, context, calls, count - 1);
        let before = calls_in_context(index, called, id, context, calls, count - 1).1;
        let more = call_outcome(index, called, id, context, calls[count - 1]).1;
        let pending = calls_in_context(index, called, id, context, calls, count).1;
        assert forall|item: (int, Seq<FlowModel>)| #[trigger]
            pending.contains(item) implies exists|k: int|
            0 <= k < count && call_outcome(
                index,
                called,
                id,
                context,
                #[trigger] calls[k],
            ).1.contains(item) by {
            let at = choose|at: int| 0 <= at < pending.len() && pending[at] == item;
            if at < before.len() {
                assert(before[at] == item);
                assert(before.contains(item));
            } else {
                assert(more[at - before.len()] == item);
                assert(call_outcome(
                    index,
                    called,
                    id,
                    context,
                    calls[count - 1],
                ).1.contains(item));
            }
        }
    }
}

proof fn more_calls_reach_more(
    index: IndexModel,
    called: Seq<(SymbolModel, usize)>,
    item: (int, Seq<FlowModel>),
    depth: nat,
)
    requires
        comes_about(index, called, item, depth),
    ensures
        comes_about(index, called, item, depth + 1),
    decreases depth,
{
    if item.1 != root_context(index, called, index.functions[item.0].id) {
        let (caller, call) = choose|caller: (int, Seq<FlowModel>), call: int|
            0 <= call < index.functions[caller.0].calls.len() && #[trigger] handed_on(
                index,
                called,
                caller,
                call,
            ).contains(item) && comes_about(index, called, caller, (depth - 1) as nat);
        more_calls_reach_more(index, called, caller, (depth - 1) as nat);
        assert(handed_on(index, called, caller, call).contains(item));
    }
}

proof fn instances_are_of_items(
    index: IndexModel,
    called: Seq<(SymbolModel, usize)>,
    item: (int, Seq<FlowModel>),
    depth: nat,
)
    requires
        comes_about(index, called, item, depth),
    ensures
        has_own_caller(
            index,
            called,
            function_in_context(index, called, index.functions[item.0], item.1),
        ),
        forall|next: (int, Seq<FlowModel>)| #[trigger]
            calls_in_context(
                index,
                called,
                index.functions[item.0].id,
                item.1,
                index.functions[item.0].calls,
                index.functions[item.0].calls.len() as int,
            ).1.contains(next) ==> comes_about(index, called, next, depth + 1),
{
    let function = index.functions[item.0];
    let instance = function_in_context(index, called, function, item.1);
    let count = function.calls.len() as int;
    calls_in_turn(index, called, function.id, item.1, function.calls, count);
    assert forall|call: int| 0 <= call < instance.calls.len() implies is_own(
        index,
        called,
        function.id,
        item.1,
        function.calls[call],
        (#[trigger] instance.calls[call]).target,
    ) by {
        candidates_are_the_callers_own(
            index,
            called,
            function.id,
            item.1,
            function.calls[call],
        );
    }
    assert(is_of_item(index, called, instance, item));
    assert forall|next: (int, Seq<FlowModel>)| #[trigger]
        calls_in_context(
            index,
            called,
            function.id,
            item.1,
            function.calls,
            count,
        ).1.contains(next) implies comes_about(index, called, next, depth + 1) by {
        let call = choose|call: int|
            0 <= call < count && call_outcome(
                index,
                called,
                function.id,
                item.1,
                #[trigger] function.calls[call],
            ).1.contains(next);
        handed_on_in_range(index, called, function.id, item.1, function.calls[call]);
        assert(handed_on(index, called, item, call).contains(next));
    }
}

proof fn roots_come_about(
    index: IndexModel,
    called: Seq<(SymbolModel, usize)>,
    reached: Seq<int>,
    count: int,
)
    requires
        0 <= count <= index.functions.len(),
    ensures
        forall|k: int|
            0 <= k < root_items(index, called, reached, count).len() ==> comes_about(
                index,
                called,
                #[trigger] root_items(index, called, reached, count)[k],
                0,
            ),
    decreases count,
{
    if count > 0 {
        roots_come_about(index, called, reached, count - 1);
        let before = root_items(index, called, reached, count - 1);
        let all = root_items(index, called, reached, count);
        assert forall|k: int| 0 <= k < all.len() implies comes_about(
            index,
            called,
            #[trigger] all[k],
            0,
        ) by {
            if k < before.len() {
                assert(all[k] == before[k]);
            }
        }
    }
}

proof fn steps_keep_callers_apart(
    index: IndexModel,
    called: Seq<(SymbolModel, usize)>,
    flows: Seq<CallFlowModel>,
    count: nat,
)
    ensures
        ({
            let work = steps(index, called, first_work(index, called, flows), count);
            &&& forall|k: int|
                0 <= k < work.pending.len() ==> comes_about(
                    index,
                    called,
                    #[trigger] work.pending[k],
                    count,
                )
            &&& forall|k: int|
                0 <= k < work.functions.len() ==> has_own_caller(
                    index,
                    called,
                    #[trigger] work.functions[k],
                )
        }),
    decreases count,
{
    let start = first_work(index, called, flows);
    let work = steps(index, called, start, count);
    if count == 0 {
        roots_come_about(
            index,
            called,
            reached_places(index, flows, flows.len() as int),
            index.functions.len() as int,
        );
    } else {
        let fewer = (count - 1) as nat;
        steps_keep_callers_apart(index, called, flows, fewer);
        let before = steps(index, called, start, fewer);
        assert(work == step(index, called, before));
        let rest = without_first(before);
        assert forall|k: int| 0 <= k < rest.pending.len() implies comes_about(
            index,
            called,
            #[trigger] rest.pending[k],
            count,
        ) by {
            assert(rest.pending[k] == before.pending[k + 1]);
            more_calls_reach_more(index, called, before.pending[k + 1], fewer);
        }
        match next_item(index, called, before) {
            None => {
                assert(before.pending.len() == 0);
            },
            Some(item) => {
                first_uncovered_is_uncovered(before.covered, index.functions.len() as int, 0);
                assert(comes_about(index, called, item, fewer));
                instances_are_of_items(index, called, item, fewer);
                reveal(taken_up);
                assert(work == taken_up(index, called, rest, item));
                let function = index.functions[item.0];
                let more = calls_in_context(
                    index,
                    called,
                    function.id,
                    item.1,
                    function.calls,
                    function.calls.len() as int,
                ).1;
                assert forall|k: int| 0 <= k < work.pending.len() implies comes_about(
                    index,
                    called,
                    #[trigger] work.pending[k],
                    count,
                ) by {
                    if k < rest.pending.len() {
                        assert(work.pending[k] == rest.pending[k]);
                    } else {
                        assert(work.pending[k] == more[k - rest.pending.len()]);
                        assert(more.contains(work.pending[k]));
                    }
                }
            },
        }
    }
}

/// Every specialized function of a program is one that is called with the
/// values of one caller, and what its calls reach comes from those values
/// alone.
pub proof fn instances_keep_callers_apart(
    index: IndexModel,
    called: Seq<(SymbolModel, usize)>,
    flows: Seq<CallFlowModel>,
    place: int,
)
    requires
        0 <= place < specialized(index, called, flows).0.len(),
    ensures
        has_own_caller(index, called, specialized(index, called, flows).0[place]),
{
    let start = first_work(index, called, flows);
    let count = choose|count: nat| #[trigger] ends_after(index, called, start, count);
    assert(outcome(index, called, start) == steps(index, called, start, count));
    steps_keep_callers_apart(index, called, flows, count);
}

} // verus!
