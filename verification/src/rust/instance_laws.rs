//! What holds of every function instance: what its calls reach comes from its
//! own caller, and from no other.
use crate::model::UnresolvedReason;
use crate::rust::flow_laws::{callers_do_not_mix, joint_flows_hold_both, passed_in};
use crate::rust::labels::instance_key;
use crate::rust::mir::ConcreteModel;
use crate::rust::provenance::{has_concrete, nothing, substituted, DynModel};
use crate::rust::raw::{
    last_with_key, RawCallModel, RawModel, RawTargetModel, TableModel,
};
use crate::rust::respecialize::{candidate_position, with_instance};
use crate::rust::semantic::{InstanceModel, SemanticModel, SemanticTargetModel};
use crate::rust::specialize::{
    call_in_context, calls_in_context, candidate_of, candidates_for, dispatched, ends_after,
    first_uncovered_is_uncovered, first_work, flow_in_context, function_in_context, next_item, outcome,
    root_context, root_items, specialized, step, steps, taken_up, target_in_context, without_first,
};
use vstd::prelude::*;

verus! {

/// Whether a type may be behind a value in a context: the function itself puts
/// it there, or its caller passes it.
pub open spec fn is_behind(flow: DynModel, context: Seq<DynModel>, id: usize) -> bool {
    has_concrete(flow.concrete, id) || passed_in(
        flow,
        context,
        flow.parameters.len() as int,
        id,
    )
}

/// Whether a candidate is what a dynamic call reaches for a type that may be
/// behind its receiver in a context.
pub open spec fn is_for_type(
    functions: Seq<RawModel>,
    table: TableModel,
    call: RawCallModel,
    context: Seq<DynModel>,
    candidate: InstanceModel,
    id: usize,
) -> bool {
    match call.target {
        RawTargetModel::Dynamic { dispatch, key, display, receiver } => is_behind(
            receiver,
            context,
            id,
        ) && match dispatched(table, dispatch, id) {
            Some(name) => candidate_of(functions, table, name, call.argument_flows, context).0
                == candidate,
            None => false,
        },
        _ => false,
    }
}

/// Whether a candidate is there for some type of a context.
pub open spec fn is_for_some_type(
    functions: Seq<RawModel>,
    table: TableModel,
    call: RawCallModel,
    context: Seq<DynModel>,
    candidate: InstanceModel,
) -> bool {
    exists|id: usize| #[trigger]
        is_for_type(functions, table, call, context, candidate, id)
}

/// Whether a candidate has a key.
pub open spec fn has_candidate(candidates: Seq<InstanceModel>, key: Seq<char>) -> bool {
    exists|k: int| 0 <= k < candidates.len() && (#[trigger] candidates[k]).key == key
}

/// Whether candidates are those that the types of a context lead to: each of
/// them is there for such a type, and each such type has its candidate.
pub open spec fn are_for_types(
    functions: Seq<RawModel>,
    table: TableModel,
    call: RawCallModel,
    context: Seq<DynModel>,
    candidates: Seq<InstanceModel>,
) -> bool {
    &&& forall|k: int|
        0 <= k < candidates.len() ==> is_for_some_type(
            functions,
            table,
            call,
            context,
            #[trigger] candidates[k],
        )
    &&& forall|candidate: InstanceModel, id: usize| #[trigger]
        is_for_type(functions, table, call, context, candidate, id) ==> has_candidate(
            candidates,
            candidate.key,
        )
}

/// Whether what a dynamic call reaches is what the types of its own context
/// lead to.
pub open spec fn is_own(
    functions: Seq<RawModel>,
    table: TableModel,
    call: RawCallModel,
    context: Seq<DynModel>,
    target: SemanticTargetModel,
) -> bool {
    call.target is Dynamic ==> match target {
        SemanticTargetModel::Dynamic { candidates, .. } => are_for_types(
            functions,
            table,
            call,
            context,
            candidates,
        ),
        _ => false,
    }
}

/// The functions that a call of an instance leads to, with what it passes.
pub open spec fn handed_on(
    functions: Seq<RawModel>,
    table: TableModel,
    caller: (int, Seq<DynModel>),
    call: int,
) -> Seq<(int, Seq<DynModel>)> {
    target_in_context(functions, table, functions[caller.0].calls[call], caller.1).1
}

/// Whether a function comes to be called in a context by at most `depth` calls
/// from one whose context is that of no caller.
pub open spec fn comes_about(
    functions: Seq<RawModel>,
    table: TableModel,
    item: (int, Seq<DynModel>),
    depth: nat,
) -> bool
    decreases depth,
{
    &&& 0 <= item.0 < functions.len()
    &&& item.1 == root_context(functions[item.0]) || (depth > 0 && exists|
        caller: (int, Seq<DynModel>),
        call: int,
    |
        0 <= call < functions[caller.0].calls.len() && #[trigger] handed_on(
            functions,
            table,
            caller,
            call,
        ).contains(item) && comes_about(functions, table, caller, (depth - 1) as nat))
}

/// Whether an instance is a function in the context of one caller, and what
/// its dynamic calls reach comes from that context.
pub open spec fn is_of_item(
    functions: Seq<RawModel>,
    table: TableModel,
    instance: SemanticModel,
    item: (int, Seq<DynModel>),
) -> bool {
    &&& 0 <= item.0 < functions.len()
    &&& instance == function_in_context(functions, table, functions[item.0], item.1)
    &&& instance.calls.len() == functions[item.0].calls.len()
    &&& forall|call: int|
        0 <= call < instance.calls.len() ==> is_own(
            functions,
            table,
            functions[item.0].calls[call],
            item.1,
            (#[trigger] instance.calls[call]).target,
        )
}

/// Whether an instance is that of one caller.
pub open spec fn has_own_caller(
    functions: Seq<RawModel>,
    table: TableModel,
    instance: SemanticModel,
) -> bool {
    exists|item: (int, Seq<DynModel>), depth: nat| #[trigger]
        comes_about(functions, table, item, depth) && is_of_item(functions, table, instance, item)
}

proof fn types_behind(flow: DynModel, context: Seq<DynModel>, id: usize)
    ensures
        has_concrete(flow_in_context(flow, context).concrete, id) == is_behind(flow, context, id),
{
    callers_do_not_mix(flow, context, id);
    joint_flows_hold_both(
        nothing(),
        substituted(flow, context),
        id,
        0,
        UnresolvedReason::AnalysisLimit,
    );
}

proof fn positions_are_in_range(candidates: Seq<InstanceModel>, key: Seq<char>, index: nat)
    requires
        index <= candidates.len(),
    ensures
        candidate_position(candidates, key, index) <= candidates.len(),
    decreases candidates.len() - index,
{
    if index < candidates.len() {
        positions_are_in_range(candidates, key, index + 1);
    }
}

proof fn one_more_candidate(candidates: Seq<InstanceModel>, candidate: InstanceModel)
    ensures
        has_candidate(with_instance(candidates, candidate), candidate.key),
        forall|key: Seq<char>|
            has_candidate(candidates, key) ==> #[trigger] has_candidate(
                with_instance(candidates, candidate),
                key,
            ),
        forall|k: int|
            0 <= k < with_instance(candidates, candidate).len() ==> #[trigger] with_instance(
                candidates,
                candidate,
            )[k] == candidate || candidates.contains(with_instance(candidates, candidate)[k]),
{
    positions_are_in_range(candidates, candidate.key, 0);
    let place = candidate_position(candidates, candidate.key, 0) as int;
    let all = with_instance(candidates, candidate);
    if place < candidates.len() && candidates[place].key == candidate.key {
        assert(all[place].key == candidate.key);
    } else {
        assert(all == candidates.insert(place, candidate));
        assert(all[place] == candidate);
    }
    assert forall|key: Seq<char>| has_candidate(candidates, key) implies #[trigger] has_candidate(
        all,
        key,
    ) by {
        let k = choose|k: int| 0 <= k < candidates.len() && (#[trigger] candidates[k]).key == key;
        if all != candidates {
            if k < place {
                assert(all[k] == candidates[k]);
            } else {
                assert(all[k + 1] == candidates[k]);
            }
        }
    }
    assert forall|k: int| 0 <= k < all.len() implies #[trigger] all[k] == candidate
        || candidates.contains(all[k]) by {
        if all == candidates {
            assert(candidates[k] == all[k]);
        } else if k < place {
            assert(all[k] == candidates[k]);
        } else if k > place {
            assert(all[k] == candidates[k - 1]);
        }
    }
}

/// Whether a candidate is there for one type.
spec fn is_for_one(
    functions: Seq<RawModel>,
    table: TableModel,
    dispatch: usize,
    concrete: Seq<ConcreteModel>,
    arguments: Seq<DynModel>,
    context: Seq<DynModel>,
    candidate: InstanceModel,
    place: int,
) -> bool {
    match dispatched(table, dispatch, concrete[place].id) {
        Some(name) => candidate_of(functions, table, name, arguments, context).0 == candidate,
        None => false,
    }
}

/// Whether a candidate is there for one of the first `count` types.
spec fn is_for_any(
    functions: Seq<RawModel>,
    table: TableModel,
    dispatch: usize,
    concrete: Seq<ConcreteModel>,
    arguments: Seq<DynModel>,
    context: Seq<DynModel>,
    candidate: InstanceModel,
    count: int,
) -> bool {
    exists|place: int|
        0 <= place < count && #[trigger] is_for_one(
            functions,
            table,
            dispatch,
            concrete,
            arguments,
            context,
            candidate,
            place,
        )
}

proof fn candidates_are_those_of_types(
    functions: Seq<RawModel>,
    table: TableModel,
    dispatch: usize,
    concrete: Seq<ConcreteModel>,
    arguments: Seq<DynModel>,
    context: Seq<DynModel>,
    count: int,
)
    requires
        0 <= count <= concrete.len(),
    ensures
        ({
            let candidates = candidates_for(
                functions,
                table,
                dispatch,
                concrete,
                arguments,
                context,
                count,
            ).0;
            &&& forall|k: int|
                0 <= k < candidates.len() ==> is_for_any(
                    functions,
                    table,
                    dispatch,
                    concrete,
                    arguments,
                    context,
                    #[trigger] candidates[k],
                    count,
                )
            &&& forall|candidate: InstanceModel, place: int|
                0 <= place < count && #[trigger] is_for_one(
                    functions,
                    table,
                    dispatch,
                    concrete,
                    arguments,
                    context,
                    candidate,
                    place,
                ) ==> has_candidate(candidates, candidate.key)
        }),
    decreases count,
{
    if count > 0 {
        candidates_are_those_of_types(
            functions,
            table,
            dispatch,
            concrete,
            arguments,
            context,
            count - 1,
        );
        let before = candidates_for(
            functions,
            table,
            dispatch,
            concrete,
            arguments,
            context,
            count - 1,
        ).0;
        let all = candidates_for(
            functions,
            table,
            dispatch,
            concrete,
            arguments,
            context,
            count,
        ).0;
        match dispatched(table, dispatch, concrete[count - 1].id) {
            Some(name) => {
                let added = candidate_of(functions, table, name, arguments, context).0;
                assert(all == with_instance(before, added));
                one_more_candidate(before, added);
                assert(is_for_one(
                    functions,
                    table,
                    dispatch,
                    concrete,
                    arguments,
                    context,
                    added,
                    count - 1,
                ));
            },
            None => {
                assert(all == before);
            },
        }
        assert forall|k: int| 0 <= k < all.len() implies is_for_any(
            functions,
            table,
            dispatch,
            concrete,
            arguments,
            context,
            #[trigger] all[k],
            count,
        ) by {
            if before.contains(all[k]) {
                let j = choose|j: int| 0 <= j < before.len() && before[j] == all[k];
                assert(is_for_any(
                    functions,
                    table,
                    dispatch,
                    concrete,
                    arguments,
                    context,
                    before[j],
                    count - 1,
                ));
                let place = choose|place: int|
                    0 <= place < count - 1 && is_for_one(
                        functions,
                        table,
                        dispatch,
                        concrete,
                        arguments,
                        context,
                        before[j],
                        place,
                    );
                assert(is_for_one(
                    functions,
                    table,
                    dispatch,
                    concrete,
                    arguments,
                    context,
                    all[k],
                    place,
                ));
            }
        }
        assert forall|candidate: InstanceModel, place: int|
            0 <= place < count && #[trigger] is_for_one(
                functions,
                table,
                dispatch,
                concrete,
                arguments,
                context,
                candidate,
                place,
            ) implies has_candidate(all, candidate.key) by {
            if place < count - 1 {
                assert(has_candidate(before, candidate.key));
            }
        }
    }
}

/// What a dynamic call of an instance reaches is what the types lead to that
/// the function itself puts behind the receiver or that this instance's caller
/// passes: nothing is there for a type that only another caller passes.
pub proof fn candidates_are_the_callers_own(
    functions: Seq<RawModel>,
    table: TableModel,
    call: RawCallModel,
    context: Seq<DynModel>,
)
    ensures
        is_own(
            functions,
            table,
            call,
            context,
            target_in_context(functions, table, call, context).0,
        ),
{
    if let RawTargetModel::Dynamic { dispatch, key, display, receiver } = call.target {
        let resolved = flow_in_context(receiver, context);
        let concrete = resolved.concrete;
        let candidates = candidates_for(
            functions,
            table,
            dispatch,
            concrete,
            call.argument_flows,
            context,
            concrete.len() as int,
        ).0;
        candidates_are_those_of_types(
            functions,
            table,
            dispatch,
            concrete,
            call.argument_flows,
            context,
            concrete.len() as int,
        );
        assert forall|k: int| 0 <= k < candidates.len() implies is_for_some_type(
            functions,
            table,
            call,
            context,
            #[trigger] candidates[k],
        ) by {
            assert(is_for_any(
                functions,
                table,
                dispatch,
                concrete,
                call.argument_flows,
                context,
                candidates[k],
                concrete.len() as int,
            ));
            let place = choose|place: int|
                0 <= place < concrete.len() && is_for_one(
                    functions,
                    table,
                    dispatch,
                    concrete,
                    call.argument_flows,
                    context,
                    candidates[k],
                    place,
                );
            let id = concrete[place].id;
            assert(has_concrete(concrete, id));
            types_behind(receiver, context, id);
            assert(is_for_type(functions, table, call, context, candidates[k], id));
        }
        assert forall|candidate: InstanceModel, id: usize| #[trigger]
            is_for_type(
                functions,
                table,
                call,
                context,
                candidate,
                id,
            ) implies has_candidate(candidates, candidate.key) by {
            types_behind(receiver, context, id);
            let place = choose|place: int|
                0 <= place < concrete.len() && (#[trigger] concrete[place]).id == id;
            assert(is_for_one(
                functions,
                table,
                dispatch,
                concrete,
                call.argument_flows,
                context,
                candidate,
                place,
            ));
        }
        assert(are_for_types(functions, table, call, context, candidates));
        assert(target_in_context(functions, table, call, context).0->candidates == candidates);
    }
}

proof fn keys_are_in_range(functions: Seq<RawModel>, key: Seq<char>, count: int)
    ensures
        last_with_key(functions, key, count) matches Some(index) ==> 0 <= index < count,
    decreases count,
{
    if count > 0 {
        keys_are_in_range(functions, key, count - 1);
    }
}

proof fn candidates_are_in_range(
    functions: Seq<RawModel>,
    table: TableModel,
    dispatch: usize,
    concrete: Seq<ConcreteModel>,
    arguments: Seq<DynModel>,
    context: Seq<DynModel>,
    count: int,
)
    ensures
        ({
            let pending = candidates_for(
                functions,
                table,
                dispatch,
                concrete,
                arguments,
                context,
                count,
            ).1;
            forall|k: int|
                0 <= k < pending.len() ==> 0 <= (#[trigger] pending[k]).0 < functions.len()
        }),
    decreases count,
{
    if count > 0 {
        candidates_are_in_range(
            functions,
            table,
            dispatch,
            concrete,
            arguments,
            context,
            count - 1,
        );
        let before = candidates_for(
            functions,
            table,
            dispatch,
            concrete,
            arguments,
            context,
            count - 1,
        ).1;
        let pending = candidates_for(
            functions,
            table,
            dispatch,
            concrete,
            arguments,
            context,
            count,
        ).1;
        if let Some(name) = dispatched(table, dispatch, concrete[count - 1].id) {
            keys_are_in_range(functions, instance_key(name), functions.len() as int);
            let more = candidate_of(functions, table, name, arguments, context).1;
            assert(pending == before + more);
            assert forall|k: int| 0 <= k < pending.len() implies 0 <= (#[trigger] pending[k]).0
                < functions.len() by {
                if k < before.len() {
                    assert(pending[k] == before[k]);
                } else {
                    assert(pending[k] == more[k - before.len()]);
                }
            }
        } else {
            assert(pending == before);
        }
    }
}

proof fn handed_on_in_range(
    functions: Seq<RawModel>,
    table: TableModel,
    call: RawCallModel,
    context: Seq<DynModel>,
)
    ensures
        forall|item: (int, Seq<DynModel>)| #[trigger]
            target_in_context(functions, table, call, context).1.contains(item) ==> 0 <= item.0
                < functions.len(),
{
    match call.target {
        RawTargetModel::Direct { key, display } => {
            keys_are_in_range(functions, key, functions.len() as int);
        },
        RawTargetModel::Dynamic { dispatch, key, display, receiver } => {
            let concrete = flow_in_context(receiver, context).concrete;
            candidates_are_in_range(
                functions,
                table,
                dispatch,
                concrete,
                call.argument_flows,
                context,
                concrete.len() as int,
            );
        },
        _ => {},
    }
}

proof fn calls_in_turn(
    functions: Seq<RawModel>,
    table: TableModel,
    calls: Seq<RawCallModel>,
    context: Seq<DynModel>,
    count: int,
)
    requires
        0 <= count <= calls.len(),
    ensures
        ({
            let (made, pending) = calls_in_context(functions, table, calls, context, count);
            &&& made.len() == count
            &&& forall|k: int|
                0 <= k < count ==> #[trigger] made[k] == call_in_context(
                    functions,
                    table,
                    calls[k],
                    context,
                )
            &&& forall|item: (int, Seq<DynModel>)| #[trigger]
                pending.contains(item) ==> exists|k: int|
                    0 <= k < count && target_in_context(
                        functions,
                        table,
                        #[trigger] calls[k],
                        context,
                    ).1.contains(item)
        }),
    decreases count,
{
    if count > 0 {
        calls_in_turn(functions, table, calls, context, count - 1);
        let before = calls_in_context(functions, table, calls, context, count - 1).1;
        let more = target_in_context(functions, table, calls[count - 1], context).1;
        let pending = calls_in_context(functions, table, calls, context, count).1;
        assert forall|item: (int, Seq<DynModel>)| #[trigger]
            pending.contains(item) implies exists|k: int|
            0 <= k < count && target_in_context(
                functions,
                table,
                #[trigger] calls[k],
                context,
            ).1.contains(item) by {
            let at = choose|at: int| 0 <= at < pending.len() && pending[at] == item;
            if at < before.len() {
                assert(before[at] == item);
                assert(before.contains(item));
            } else {
                assert(more[at - before.len()] == item);
                assert(target_in_context(
                    functions,
                    table,
                    calls[count - 1],
                    context,
                ).1.contains(item));
            }
        }
    }
}

proof fn more_calls_reach_more(
    functions: Seq<RawModel>,
    table: TableModel,
    item: (int, Seq<DynModel>),
    depth: nat,
)
    requires
        comes_about(functions, table, item, depth),
    ensures
        comes_about(functions, table, item, depth + 1),
    decreases depth,
{
    if item.1 != root_context(functions[item.0]) {
        let (caller, call) = choose|caller: (int, Seq<DynModel>), call: int|
            0 <= call < functions[caller.0].calls.len() && #[trigger] handed_on(
                functions,
                table,
                caller,
                call,
            ).contains(item) && comes_about(functions, table, caller, (depth - 1) as nat);
        more_calls_reach_more(functions, table, caller, (depth - 1) as nat);
        assert(handed_on(functions, table, caller, call).contains(item));
    }
}

proof fn instances_are_of_items(
    functions: Seq<RawModel>,
    table: TableModel,
    item: (int, Seq<DynModel>),
    depth: nat,
)
    requires
        comes_about(functions, table, item, depth),
    ensures
        has_own_caller(
            functions,
            table,
            function_in_context(functions, table, functions[item.0], item.1),
        ),
        forall|next: (int, Seq<DynModel>)| #[trigger]
            calls_in_context(
                functions,
                table,
                functions[item.0].calls,
                item.1,
                functions[item.0].calls.len() as int,
            ).1.contains(next) ==> comes_about(functions, table, next, depth + 1),
{
    let function = functions[item.0];
    let instance = function_in_context(functions, table, function, item.1);
    let count = function.calls.len() as int;
    calls_in_turn(functions, table, function.calls, item.1, count);
    assert forall|call: int| 0 <= call < instance.calls.len() implies is_own(
        functions,
        table,
        functions[item.0].calls[call],
        item.1,
        (#[trigger] instance.calls[call]).target,
    ) by {
        candidates_are_the_callers_own(functions, table, function.calls[call], item.1);
    }
    assert(is_of_item(functions, table, instance, item));
    assert forall|next: (int, Seq<DynModel>)| #[trigger]
        calls_in_context(
            functions,
            table,
            function.calls,
            item.1,
            count,
        ).1.contains(next) implies comes_about(functions, table, next, depth + 1) by {
        let call = choose|call: int|
            0 <= call < count && target_in_context(
                functions,
                table,
                #[trigger] function.calls[call],
                item.1,
            ).1.contains(next);
        handed_on_in_range(functions, table, function.calls[call], item.1);
        assert(handed_on(functions, table, item, call).contains(next));
    }
}

proof fn roots_come_about(functions: Seq<RawModel>, table: TableModel, count: int)
    requires
        0 <= count <= functions.len(),
    ensures
        forall|k: int|
            0 <= k < root_items(functions, table, count).len() ==> comes_about(
                functions,
                table,
                #[trigger] root_items(functions, table, count)[k],
                0,
            ),
    decreases count,
{
    if count > 0 {
        roots_come_about(functions, table, count - 1);
        let before = root_items(functions, table, count - 1);
        let all = root_items(functions, table, count);
        assert forall|k: int| 0 <= k < all.len() implies comes_about(
            functions,
            table,
            #[trigger] all[k],
            0,
        ) by {
            if k < before.len() {
                assert(all[k] == before[k]);
            }
        }
    }
}

proof fn steps_keep_callers_apart(functions: Seq<RawModel>, table: TableModel, count: nat)
    ensures
        ({
            let work = steps(functions, table, first_work(functions, table), count);
            &&& forall|k: int|
                0 <= k < work.pending.len() ==> comes_about(
                    functions,
                    table,
                    #[trigger] work.pending[k],
                    count,
                )
            &&& forall|k: int|
                0 <= k < work.functions.len() ==> has_own_caller(
                    functions,
                    table,
                    #[trigger] work.functions[k],
                )
        }),
    decreases count,
{
    let start = first_work(functions, table);
    let work = steps(functions, table, start, count);
    if count == 0 {
        roots_come_about(functions, table, functions.len() as int);
    } else {
        let fewer = (count - 1) as nat;
        steps_keep_callers_apart(functions, table, fewer);
        let before = steps(functions, table, start, fewer);
        assert(work == step(functions, table, before));
        let rest = without_first(before);
        assert forall|k: int| 0 <= k < rest.pending.len() implies comes_about(
            functions,
            table,
            #[trigger] rest.pending[k],
            count,
        ) by {
            assert(rest.pending[k] == before.pending[k + 1]);
            more_calls_reach_more(functions, table, before.pending[k + 1], fewer);
        }
        match next_item(functions, before) {
            None => {
                assert(before.pending.len() == 0);
            },
            Some(item) => {
                first_uncovered_is_uncovered(before.covered, functions.len() as int, 0);
                assert(comes_about(functions, table, item, fewer));
                instances_are_of_items(functions, table, item, fewer);
                assert(work == taken_up(functions, table, rest, item));
                let more = calls_in_context(
                    functions,
                    table,
                    functions[item.0].calls,
                    item.1,
                    functions[item.0].calls.len() as int,
                ).1;
                assert forall|k: int| 0 <= k < work.pending.len() implies comes_about(
                    functions,
                    table,
                    #[trigger] work.pending[k],
                    count,
                ) by {
                    if k < rest.pending.len() {
                        assert(work.pending[k] == rest.pending[k]);
                    } else {
                        assert(work.pending[k] == more[k - rest.pending.len()]);
                        assert(more.contains(work.pending[k]));
                    }
                }
            },
        }
    }
}

/// Every function instance of a crate is a function in the context of one
/// caller, and what its dynamic calls reach comes from that context alone.
pub proof fn instances_keep_callers_apart(functions: Seq<RawModel>, table: TableModel, place: int)
    requires
        0 <= place < specialized(functions, table).len(),
    ensures
        has_own_caller(functions, table, specialized(functions, table)[place]),
{
    let start = first_work(functions, table);
    let count = choose|count: nat| #[trigger] ends_after(functions, table, start, count);
    assert(outcome(functions, table, start) == steps(functions, table, start, count));
    steps_keep_callers_apart(functions, table, count);
}

} // verus!
