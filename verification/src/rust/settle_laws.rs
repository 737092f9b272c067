//! What the analysis of a body comes to: it ends where running any block once
//! more would tell nothing new, or says that it stopped before.
use crate::lists::pushed_items;
use crate::model::UnresolvedReason;
use crate::rust::analysis::{
    after_assignments, after_block, after_return, analysis_from, arrived, block_limit,
    body_analysis, call_joined, degraded, entry_flows, fits, flow_or_nothing, left_for,
    limited_call, no_analysis, AnalysisModel, ProgressModel,
};
use crate::rust::dataflow::{
    after_call, operand_flow, operand_flows, returned_alias, returned_flow, KnowledgeModel,
    RunModel,
};
use crate::rust::flow_laws::{added_reason_is_there, joint_flows_hold_both};
use crate::rust::join_laws::{
    allowing_is_transitive, allows_for, arrivals_allow_for_every_state, has_type,
    parameter_behind, states_allow_for_themselves,
};
use crate::rust::mir::{
    carries_dyn, contains_dyn, is_dyn, successors_of, well_formed_body, whole, BodyModel,
    TerminatorModel, TypeModel,
};
use crate::rust::provenance::{
    blank, flow_at, has_concrete, joint, parameter_flow, DynModel, StateModel,
};
use vstd::prelude::*;

verus! {

/// Whether all that may stand behind one value may stand behind another.
pub open spec fn holds_flow(more: DynModel, less: DynModel) -> bool {
    &&& forall|id: usize| #[trigger] has_type(less, id) ==> has_type(more, id)
    &&& forall|parameter: usize| #[trigger]
        less.parameters.contains(parameter) ==> more.parameters.contains(parameter)
    &&& forall|reason: UnresolvedReason| #[trigger]
        less.unresolved_reasons.contains(reason) ==> more.unresolved_reasons.contains(reason)
}

/// Joint values hold both.
pub proof fn joint_flows_hold_each(left: DynModel, right: DynModel)
    ensures
        holds_flow(joint(left, right), left),
        holds_flow(joint(left, right), right),
{
    let both = joint(left, right);
    let none = UnresolvedReason::AnalysisLimit;
    assert forall|id: usize| has_type(left, id) || has_type(right, id) implies #[trigger] has_type(
        both,
        id,
    ) by {
        joint_flows_hold_both(left, right, id, 0, none);
        assert(has_type(left, id) == has_concrete(left.concrete, id));
        assert(has_type(right, id) == has_concrete(right.concrete, id));
        assert(has_type(both, id) == has_concrete(both.concrete, id));
    }
    assert forall|id: usize| #[trigger] has_type(left, id) implies has_type(both, id) by {}
    assert forall|id: usize| #[trigger] has_type(right, id) implies has_type(both, id) by {}
    assert forall|parameter: usize| #[trigger] left.parameters.contains(
        parameter,
    ) implies both.parameters.contains(parameter) by {
        joint_flows_hold_both(left, right, 0, parameter, none);
    }
    assert forall|parameter: usize| #[trigger] right.parameters.contains(
        parameter,
    ) implies both.parameters.contains(parameter) by {
        joint_flows_hold_both(left, right, 0, parameter, none);
    }
    assert forall|reason: UnresolvedReason| #[trigger] left.unresolved_reasons.contains(
        reason,
    ) implies both.unresolved_reasons.contains(reason) by {
        joint_flows_hold_both(left, right, 0, 0, reason);
    }
    assert forall|reason: UnresolvedReason| #[trigger] right.unresolved_reasons.contains(
        reason,
    ) implies both.unresolved_reasons.contains(reason) by {
        joint_flows_hold_both(left, right, 0, 0, reason);
    }
}

/// What is known at the end of a block before it is left.
pub open spec fn at_end(body: BodyModel, block: int, run: RunModel) -> RunModel {
    after_assignments(
        run,
        body.blocks[block].assignments,
        body.blocks[block].assignments.len() as int,
    )
}

/// What a block hands to a block that follows it.
pub open spec fn handed_to(
    body: BodyModel,
    known: KnowledgeModel,
    block: int,
    run: RunModel,
    next: usize,
) -> StateModel {
    let end = at_end(body, block, run);
    match body.blocks[block].terminator {
        TerminatorModel::Call(call) => {
            let flows = operand_flows(end.state, call.arguments);
            let after = after_call(known, end.state, end.effects, call, flows).0;
            if call.target == Some(next) {
                after_return(
                    after,
                    call,
                    returned_flow(known, call, flows),
                    returned_alias(known, after, call),
                )
            } else {
                after
            }
        },
        _ => end.state,
    }
}

/// Whether what is known of the arguments of a call holds what stands behind
/// them in a run of its block.
pub open spec fn call_is_known(
    body: BodyModel,
    block: int,
    run: RunModel,
    call: Option<Seq<DynModel>>,
) -> bool {
    match body.blocks[block].terminator {
        TerminatorModel::Call(terminator) => call is Some && call->0.len()
            >= terminator.arguments.len() && forall|index: int|
            0 <= index < terminator.arguments.len() ==> holds_flow(
                #[trigger] call->0[index],
                operand_flow(at_end(body, block, run).state, terminator.arguments[index]),
            ),
        _ => true,
    }
}

/// Whether what is known of the value that a body returns holds what it returns
/// in a run of a block.
pub open spec fn return_is_known(
    body: BodyModel,
    block: int,
    run: RunModel,
    flow: DynModel,
) -> bool {
    body.blocks[block].terminator is Return ==> holds_flow(
        flow,
        flow_at(at_end(body, block, run).state, whole(0)),
    )
}

/// Whether a state allows for what is passed to a body: each parameter that can
/// hold a dynamic value stands behind its local.
pub open spec fn allows_for_parameters(body: BodyModel, state: StateModel) -> bool {
    forall|index: int|
        0 <= index < body.argument_types.len() && #[trigger] carries_dyn(
            body.argument_types[index].text,
        ) ==> parameter_behind(state, whole((index + 1) as usize), index as usize)
}

/// Whether one run of each block that can be reached tells all: what a run
/// hands to the next block is allowed for in the run of that block, and what is
/// known of the calls and of the returned value holds what stands behind them
/// in each run.
pub open spec fn is_settled(
    body: BodyModel,
    known: KnowledgeModel,
    analysis: AnalysisModel,
    runs: Seq<Option<RunModel>>,
) -> bool {
    &&& runs.len() == body.blocks.len()
    &&& analysis.calls.len() == body.blocks.len()
    &&& runs[0] is Some
    &&& allows_for_parameters(body, runs[0]->0.state)
    &&& forall|block: int, place: int|
        0 <= block < runs.len() && runs[block] is Some && 0 <= place < successors_of(
            body.blocks[block].terminator,
        ).len() ==> {
            let next = #[trigger] successors_of(body.blocks[block].terminator)[place];
            runs[next as int] is Some && allows_for(
                runs[next as int]->0.state,
                handed_to(body, known, block, runs[block]->0, next),
            )
        }
    &&& forall|block: int|
        0 <= block < runs.len() && (#[trigger] runs[block]) is Some ==> call_is_known(
            body,
            block,
            runs[block]->0,
            analysis.calls[block],
        ) && return_is_known(body, block, runs[block]->0, analysis.return_flow)
}

/// Whether an analysis says that it stopped: behind each dynamic argument, and
/// behind the returned value if it can be dynamic.
pub open spec fn says_it_stopped(body: BodyModel, analysis: AnalysisModel) -> bool {
    &&& contains_dyn(body.return_type.text)
        ==> analysis.return_flow.unresolved_reasons.contains(UnresolvedReason::AnalysisLimit)
    &&& forall|block: int, index: int|
        0 <= block < body.blocks.len() && (body.blocks[block].terminator is Call && 0 <= index
            < body.blocks[block].terminator->Call_0.arguments.len() && is_dyn(
            (#[trigger] body.blocks[block].terminator->Call_0.arguments[index]).ty,
        )) ==> analysis.calls[block] is Some && index < analysis.calls[block]->0.len()
            && analysis.calls[block]->0[index].unresolved_reasons.contains(
            UnresolvedReason::AnalysisLimit,
        )
}

proof fn blocks_are_left(
    incoming: Seq<Option<StateModel>>,
    pending: Seq<usize>,
    successors: Seq<usize>,
    state: StateModel,
    target: Option<usize>,
    delivered: StateModel,
    count: int,
)
    requires
        0 <= count <= successors.len(),
        forall|place: int|
            0 <= place < successors.len() ==> #[trigger] successors[place] < incoming.len(),
    ensures
        ({
            let (after, due) = left_for(
                incoming,
                pending,
                successors,
                state,
                target,
                delivered,
                count,
            );
            &&& after.len() == incoming.len()
            &&& forall|block: usize| pending.contains(block) ==> #[trigger] due.contains(block)
            &&& forall|block: int|
                0 <= block < incoming.len() && incoming[block] is Some ==> (
                #[trigger] after[block]) is Some && allows_for(after[block]->0, incoming[block]->0)
            &&& forall|block: usize|
                block < incoming.len() && (#[trigger] after[block as int]) is Some ==> due.contains(
                    block,
                ) || (incoming[block as int] is Some && allows_for(
                    incoming[block as int]->0,
                    after[block as int]->0,
                ))
            &&& forall|place: int|
                0 <= place < count ==> {
                    let block = #[trigger] successors[place];
                    after[block as int] is Some && allows_for(
                        after[block as int]->0,
                        if target == Some(block) {
                            delivered
                        } else {
                            state
                        },
                    )
                }
        }),
    decreases count,
{
    if count > 0 {
        blocks_are_left(incoming, pending, successors, state, target, delivered, count - 1);
        let (before, early) = left_for(
            incoming,
            pending,
            successors,
            state,
            target,
            delivered,
            count - 1,
        );
        let (after, due) = left_for(
            incoming,
            pending,
            successors,
            state,
            target,
            delivered,
            count,
        );
        let next = successors[count - 1];
        let handed = if target == Some(next) {
            delivered
        } else {
            state
        };
        arrivals_allow_for_every_state(before[next as int], handed);
        let changed = arrived(before[next as int], handed).1;
        assert forall|block: usize| early.contains(block) implies #[trigger] due.contains(block) by {
            pushed_items(early, next, block);
        }
        pushed_items(early, next, next);
        assert forall|block: int| 0 <= block < incoming.len() && incoming[block] is Some implies (
        #[trigger] after[block]) is Some && allows_for(after[block]->0, incoming[block]->0) by {
            assert(before[block] is Some);
            if block == next {
                allowing_is_transitive(after[block]->0, before[block]->0, incoming[block]->0);
            }
        }
        assert forall|block: usize|
            block < incoming.len() && (#[trigger] after[block as int]) is Some implies due.contains(
            block,
        ) || (incoming[block as int] is Some && allows_for(
            incoming[block as int]->0,
            after[block as int]->0,
        )) by {
            if block == next {
                if !changed {
                    assert(before[block as int] is Some);
                    if early.contains(block) {
                        assert(due.contains(block));
                    } else {
                        allowing_is_transitive(
                            incoming[block as int]->0,
                            before[block as int]->0,
                            after[block as int]->0,
                        );
                    }
                }
            } else {
                assert(before[block as int] is Some);
                if early.contains(block) {
                    assert(due.contains(block));
                }
            }
        }
        assert forall|place: int| 0 <= place < count implies {
            let block = #[trigger] successors[place];
            after[block as int] is Some && allows_for(
                after[block as int]->0,
                if target == Some(block) {
                    delivered
                } else {
                    state
                },
            )
        } by {
            let block = successors[place];
            if place < count - 1 {
                let first = if target == Some(block) {
                    delivered
                } else {
                    state
                };
                assert(before[block as int] is Some);
                if block == next {
                    allowing_is_transitive(after[block as int]->0, before[block as int]->0, first);
                }
            }
        }
    } else {
        assert forall|block: usize| block < incoming.len() && (
        #[trigger] incoming[block as int]) is Some implies allows_for(
            incoming[block as int]->0,
            incoming[block as int]->0,
        ) by {
            states_allow_for_themselves(incoming[block as int]->0);
        }
    }
}

/// What holds while blocks are still to be run.
spec fn is_on_the_way(
    body: BodyModel,
    known: KnowledgeModel,
    progress: ProgressModel,
    runs: Seq<Option<RunModel>>,
) -> bool {
    &&& fits(body, progress)
    &&& runs.len() == body.blocks.len()
    &&& progress.incoming[0] is Some
    &&& allows_for_parameters(body, progress.incoming[0]->0)
    &&& forall|block: usize|
        block < body.blocks.len() && (#[trigger] progress.incoming[block as int]) is Some
            ==> progress.pending.contains(block) || (runs[block as int] is Some && allows_for(
            runs[block as int]->0.state,
            progress.incoming[block as int]->0,
        ))
    &&& forall|block: int, place: int|
        0 <= block < runs.len() && runs[block] is Some && 0 <= place < successors_of(
            body.blocks[block].terminator,
        ).len() ==> {
            let next = #[trigger] successors_of(body.blocks[block].terminator)[place];
            progress.incoming[next as int] is Some && allows_for(
                progress.incoming[next as int]->0,
                handed_to(body, known, block, runs[block]->0, next),
            )
        }
    &&& forall|block: int|
        0 <= block < runs.len() && (#[trigger] runs[block]) is Some ==> call_is_known(
            body,
            block,
            runs[block]->0,
            progress.analysis.calls[block],
        ) && return_is_known(body, block, runs[block]->0, progress.analysis.return_flow)
}

proof fn parameters_stay_allowed(body: BodyModel, more: StateModel, less: StateModel)
    requires
        allows_for(more, less),
        allows_for_parameters(body, less),
    ensures
        allows_for_parameters(body, more),
{
    assert forall|index: int|
        0 <= index < body.argument_types.len() && #[trigger] carries_dyn(
            body.argument_types[index].text,
        ) implies parameter_behind(more, whole((index + 1) as usize), index as usize) by {
        assert(parameter_behind(less, whole((index + 1) as usize), index as usize));
    }
}

proof fn holding_is_transitive(most: DynModel, more: DynModel, less: DynModel)
    requires
        holds_flow(most, more),
        holds_flow(more, less),
    ensures
        holds_flow(most, less),
{
}

proof fn joint_calls_hold_both(
    body: BodyModel,
    block: int,
    call: Option<Seq<DynModel>>,
    run: RunModel,
    earlier: Option<RunModel>,
)
    requires
        0 <= block < body.blocks.len(),
        body.blocks[block].terminator is Call,
    ensures
        ({
            let terminator = body.blocks[block].terminator->Call_0;
            let flows = operand_flows(at_end(body, block, run).state, terminator.arguments);
            let after = Some(call_joined(call, flows));
            &&& call_is_known(body, block, run, after)
            &&& earlier is Some && call_is_known(body, block, earlier->0, call) ==> call_is_known(
                body,
                block,
                earlier->0,
                after,
            )
        }),
{
    let terminator = body.blocks[block].terminator->Call_0;
    let flows = operand_flows(at_end(body, block, run).state, terminator.arguments);
    let after = call_joined(call, flows);
    assert forall|index: int| 0 <= index < terminator.arguments.len() implies holds_flow(
        #[trigger] after[index],
        operand_flow(at_end(body, block, run).state, terminator.arguments[index]),
    ) by {
        assert(flows[index] == operand_flow(
            at_end(body, block, run).state,
            terminator.arguments[index],
        ));
        match call {
            None => {},
            Some(before) => {
                joint_flows_hold_each(flow_or_nothing(before, index), flows[index]);
            },
        }
    }
    if earlier is Some && call_is_known(body, block, earlier->0, call) {
        let before = call->0;
        let first = at_end(body, block, earlier->0).state;
        assert forall|index: int| 0 <= index < terminator.arguments.len() implies holds_flow(
            #[trigger] after[index],
            operand_flow(first, terminator.arguments[index]),
        ) by {
            assert(holds_flow(
                before[index],
                operand_flow(first, terminator.arguments[index]),
            ));
            joint_flows_hold_each(flow_or_nothing(before, index), flows[index]);
            holding_is_transitive(
                after[index],
                before[index],
                operand_flow(first, terminator.arguments[index]),
            );
        }
    }
}

#[verifier::rlimit(60)]
proof fn one_block_keeps_the_way(
    body: BodyModel,
    known: KnowledgeModel,
    progress: ProgressModel,
    runs: Seq<Option<RunModel>>,
) -> (after: Seq<Option<RunModel>>)
    requires
        well_formed_body(body),
        is_on_the_way(body, known, progress, runs),
        progress.pending.len() > 0,
    ensures
        is_on_the_way(
            body,
            known,
            after_block(
                body,
                known,
                ProgressModel { pending: progress.pending.skip(1), ..progress },
                progress.pending[0],
            ),
            after,
        ),
{
    let block = progress.pending[0];
    let rest = progress.pending.skip(1);
    let before = ProgressModel { pending: rest, ..progress };
    let done = after_block(body, known, before, block);
    let incoming = progress.incoming;
    assert(block < body.blocks.len());
    assert forall|other: usize|
        progress.pending.contains(other) && other != block implies #[trigger] rest.contains(
        other,
    ) by {
        let at = choose|at: int|
            0 <= at < progress.pending.len() && progress.pending[at] == other;
        assert(rest[at - 1] == other);
    }
    assert forall|index: int| 0 <= index < rest.len() implies #[trigger] rest[index]
        < body.blocks.len() by {
        assert(rest[index] == progress.pending[index + 1]);
    }
    match incoming[block as int] {
        None => {
            assert(done == before);
            runs
        },
        Some(state) => {
            let run = RunModel {
                state,
                effects: progress.analysis.parameter_effects,
                coroutines: progress.analysis.generated_coroutine_flows,
            };
            let after = runs.update(block as int, Some(run));
            let end = at_end(body, block as int, run);
            let successors = successors_of(body.blocks[block as int].terminator);
            let (reached, target, delivered) = match body.blocks[block as int].terminator {
                TerminatorModel::Call(call) => {
                    let flows = operand_flows(end.state, call.arguments);
                    let reached = after_call(known, end.state, end.effects, call, flows).0;
                    (
                        reached,
                        call.target,
                        after_return(
                            reached,
                            call,
                            returned_flow(known, call, flows),
                            returned_alias(known, reached, call),
                        ),
                    )
                },
                _ => (end.state, None::<usize>, end.state),
            };
            assert forall|place: int| 0 <= place < successors.len() implies
                #[trigger] successors[place] < incoming.len() by {
                assert(successors_of(body.blocks[block as int].terminator)[place]
                    < body.blocks.len());
            }
            blocks_are_left(
                incoming,
                rest,
                successors,
                reached,
                target,
                delivered,
                successors.len() as int,
            );
            let (arrivals, due) = left_for(
                incoming,
                rest,
                successors,
                reached,
                target,
                delivered,
                successors.len() as int,
            );
            assert(done.incoming == arrivals && done.pending == due);
            pending_stays_inside(
                incoming,
                rest,
                successors,
                reached,
                target,
                delivered,
                successors.len() as int,
            );
            assert(fits(body, done));
            assert(done.incoming[0] is Some);
            parameters_stay_allowed(body, done.incoming[0]->0, incoming[0]->0);
            states_allow_for_themselves(state);
            assert forall|other: usize|
                other < body.blocks.len() && (#[trigger] done.incoming[other as int]) is Some implies
                done.pending.contains(other) || (after[other as int] is Some && allows_for(
                after[other as int]->0.state,
                done.incoming[other as int]->0,
            )) by {
                if !due.contains(other) {
                    assert(incoming[other as int] is Some);
                    assert(allows_for(incoming[other as int]->0, done.incoming[other as int]->0));
                    if other != block {
                        if progress.pending.contains(other) {
                            assert(rest.contains(other));
                            assert(due.contains(other));
                        }
                        allowing_is_transitive(
                            runs[other as int]->0.state,
                            incoming[other as int]->0,
                            done.incoming[other as int]->0,
                        );
                    }
                }
            }
            assert forall|from: int, place: int|
                0 <= from < after.len() && after[from] is Some && 0 <= place < successors_of(
                    body.blocks[from].terminator,
                ).len() implies {
                let next = #[trigger] successors_of(body.blocks[from].terminator)[place];
                done.incoming[next as int] is Some && allows_for(
                    done.incoming[next as int]->0,
                    handed_to(body, known, from, after[from]->0, next),
                )
            } by {
                let next = successors_of(body.blocks[from].terminator)[place];
                assert(next < body.blocks.len());
                if from == block {
                    assert(successors[place] == next);
                    assert(handed_to(body, known, from, after[from]->0, next) == (if target == Some(
                        next,
                    ) {
                        delivered
                    } else {
                        reached
                    }));
                } else {
                    assert(runs[from] is Some);
                    assert(incoming[next as int] is Some);
                    assert(done.incoming[next as int] is Some);
                    allowing_is_transitive(
                        done.incoming[next as int]->0,
                        incoming[next as int]->0,
                        handed_to(body, known, from, runs[from]->0, next),
                    );
                }
            }
            let flow = flow_at(end.state, whole(0));
            joint_flows_hold_each(progress.analysis.return_flow, flow);
            if body.blocks[block as int].terminator is Call {
                joint_calls_hold_both(
                    body,
                    block as int,
                    progress.analysis.calls[block as int],
                    run,
                    None,
                );
            }
            assert forall|other: int| 0 <= other < after.len() && (
            #[trigger] after[other]) is Some implies call_is_known(
                body,
                other,
                after[other]->0,
                done.analysis.calls[other],
            ) && return_is_known(body, other, after[other]->0, done.analysis.return_flow) by {
                if other != block {
                    assert(runs[other] is Some);
                    assert(done.analysis.calls[other] == progress.analysis.calls[other]);
                    if body.blocks[other].terminator is Return && body.blocks[block as int].terminator is Return {
                        holding_is_transitive(
                            done.analysis.return_flow,
                            progress.analysis.return_flow,
                            flow_at(at_end(body, other, runs[other]->0).state, whole(0)),
                        );
                    }
                }
            }
            after
        },
    }
}

proof fn pending_stays_inside(
    incoming: Seq<Option<StateModel>>,
    pending: Seq<usize>,
    successors: Seq<usize>,
    state: StateModel,
    target: Option<usize>,
    delivered: StateModel,
    count: int,
)
    requires
        0 <= count <= successors.len(),
        forall|place: int|
            0 <= place < successors.len() ==> #[trigger] successors[place] < incoming.len(),
        forall|place: int|
            0 <= place < pending.len() ==> #[trigger] pending[place] < incoming.len(),
    ensures
        forall|place: int|
            0 <= place < left_for(
                incoming,
                pending,
                successors,
                state,
                target,
                delivered,
                count,
            ).1.len() ==> #[trigger] left_for(
                incoming,
                pending,
                successors,
                state,
                target,
                delivered,
                count,
            ).1[place] < incoming.len(),
    decreases count,
{
    if count > 0 {
        pending_stays_inside(incoming, pending, successors, state, target, delivered, count - 1);
        let early = left_for(
            incoming,
            pending,
            successors,
            state,
            target,
            delivered,
            count - 1,
        ).1;
        let due = left_for(incoming, pending, successors, state, target, delivered, count).1;
        assert forall|place: int| 0 <= place < due.len() implies #[trigger] due[place]
            < incoming.len() by {
            assert(successors[count - 1] < incoming.len());
            if place < early.len() {
                assert(early[place] < incoming.len());
            }
        }
    }
}

proof fn stopped_analyses_say_so(body: BodyModel, analysis: AnalysisModel)
    requires
        analysis.calls.len() == body.blocks.len(),
    ensures
        says_it_stopped(body, degraded(body, analysis)),
{
    let after = degraded(body, analysis);
    let limit = UnresolvedReason::AnalysisLimit;
    added_reason_is_there(analysis.return_flow.unresolved_reasons, limit, limit);
    assert forall|block: int, index: int|
        0 <= block < body.blocks.len() && (body.blocks[block].terminator is Call && 0 <= index
            < body.blocks[block].terminator->Call_0.arguments.len() && is_dyn(
            (#[trigger] body.blocks[block].terminator->Call_0.arguments[index]).ty,
        )) implies after.calls[block] is Some && index < after.calls[block]->0.len()
        && after.calls[block]->0[index].unresolved_reasons.contains(limit) by {
        let terminator = body.blocks[block].terminator->Call_0;
        let flows = match analysis.calls[block] {
            Some(flows) => flows,
            None => Seq::empty(),
        };
        assert(after.calls[block] == Some(
            limited_call(analysis.calls[block], terminator.arguments),
        ));
        added_reason_is_there(flow_or_nothing(flows, index).unresolved_reasons, limit, limit);
    }
}

proof fn analyses_from_settle(
    body: BodyModel,
    known: KnowledgeModel,
    progress: ProgressModel,
    fuel: nat,
    runs: Seq<Option<RunModel>>,
)
    requires
        well_formed_body(body),
        body.blocks.len() > 0,
        is_on_the_way(body, known, progress, runs),
    ensures
        says_it_stopped(body, analysis_from(body, known, progress, fuel))
            || exists|last: Seq<Option<RunModel>>| #[trigger]
            is_settled(body, known, analysis_from(body, known, progress, fuel), last),
    decreases fuel,
{
    if progress.pending.len() == 0 {
        assert(runs[0] is Some) by {
            assert(progress.incoming[0usize as int] is Some);
        }
        parameters_stay_allowed(body, runs[0]->0.state, progress.incoming[0]->0);
        assert forall|block: int, place: int|
            0 <= block < runs.len() && runs[block] is Some && 0 <= place < successors_of(
                body.blocks[block].terminator,
            ).len() implies {
            let next = #[trigger] successors_of(body.blocks[block].terminator)[place];
            runs[next as int] is Some && allows_for(
                runs[next as int]->0.state,
                handed_to(body, known, block, runs[block]->0, next),
            )
        } by {
            let next = successors_of(body.blocks[block].terminator)[place];
            assert(next < body.blocks.len());
            assert(progress.incoming[next as int] is Some);
            allowing_is_transitive(
                runs[next as int]->0.state,
                progress.incoming[next as int]->0,
                handed_to(body, known, block, runs[block]->0, next),
            );
        }
        assert(is_settled(body, known, progress.analysis, runs));
    } else if fuel == 0 {
        stopped_analyses_say_so(body, progress.analysis);
    } else {
        let after = one_block_keeps_the_way(body, known, progress, runs);
        analyses_from_settle(
            body,
            known,
            after_block(
                body,
                known,
                ProgressModel { pending: progress.pending.skip(1), ..progress },
                progress.pending[0],
            ),
            (fuel - 1) as nat,
            after,
        );
    }
}

proof fn parameters_are_entered(types: Seq<TypeModel>, count: int, index: int)
    requires
        0 <= index < count <= types.len() <= usize::MAX,
        carries_dyn(types[index].text),
    ensures
        parameter_behind(
            StateModel { flows: entry_flows(types, count), ..blank() },
            whole((index + 1) as usize),
            index as usize,
        ),
    decreases count,
{
    let before = entry_flows(types, count - 1);
    let after = entry_flows(types, count);
    let place = whole((index + 1) as usize);
    let state = StateModel { flows: after, ..blank() };
    if index == count - 1 {
        let flow = parameter_flow(index as usize);
        assert(flow.parameters[0] == index as usize);
        crate::rust::join_laws::bound_is_there(before, place, flow);
        let at = choose|at: int| 0 <= at < after.len() && #[trigger] after[at] == (place, flow);
        assert(state.flows[at].0 == place);
    } else {
        parameters_are_entered(types, count - 1, index);
        let earlier = StateModel { flows: before, ..blank() };
        let at = choose|at: int|
            0 <= at < earlier.flows.len() && (#[trigger] earlier.flows[at]).0 == place
                && earlier.flows[at].1.parameters.contains(index as usize);
        if carries_dyn(types[count - 1].text) {
            crate::rust::join_laws::bound_keeps_others(
                before,
                whole(count as usize),
                parameter_flow((count - 1) as usize),
                at,
            );
        }
        assert(state.flows[at].0 == place);
    }
}

/// The analysis of a body comes to a rest or says that it stopped. At rest,
/// what a block hands on is allowed for in each block that can follow it, along
/// all the paths through the body; so what flows into a call or into the
/// returned value along one of them is among what is known of it.
pub proof fn analyses_come_to_rest(body: BodyModel, known: KnowledgeModel)
    requires
        well_formed_body(body),
        body.blocks.len() > 0,
        body.argument_types.len() <= usize::MAX,
    ensures
        says_it_stopped(body, body_analysis(body, known)) || exists|runs: Seq<Option<RunModel>>|
            #[trigger] is_settled(body, known, body_analysis(body, known), runs),
{
    let entry = StateModel {
        flows: entry_flows(body.argument_types, body.argument_types.len() as int),
        ..blank()
    };
    let progress = ProgressModel {
        incoming: Seq::new(body.blocks.len(), |index: int| None).update(0, Some(entry)),
        pending: seq![0],
        analysis: no_analysis(body),
    };
    let runs = Seq::new(body.blocks.len(), |index: int| None::<RunModel>);
    assert(progress.pending.contains(0)) by {
        assert(progress.pending[0] == 0);
    }
    assert forall|index: int|
        0 <= index < body.argument_types.len() && #[trigger] carries_dyn(
            body.argument_types[index].text,
        ) implies parameter_behind(entry, whole((index + 1) as usize), index as usize) by {
        parameters_are_entered(body.argument_types, body.argument_types.len() as int, index);
    }
    assert forall|block: usize|
        block < body.blocks.len() && (#[trigger] progress.incoming[block as int]) is Some implies
        progress.pending.contains(block) by {}
    assert(is_on_the_way(body, known, progress, runs));
    analyses_from_settle(
        body,
        known,
        progress,
        block_limit(body.blocks.len(), body.locals as nat),
        runs,
    );
}

} // verus!
