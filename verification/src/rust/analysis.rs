//! What flows through a body from its entry to its calls and its return.
use crate::lists::{bound, copy_list, value_of, views};
use crate::model::UnresolvedReason;
use crate::rust::dataflow::{
    after_assignment, after_call, apply_call_memory_effects, flow_of_call, flows_for_operands,
    operand_flows, returned_alias, returned_call_alias, returned_flow, set_alias,
    transfer_dyn_statement, with_alias, CallKnowledge, KnowledgeModel, NumberedFlow, RunModel,
};
use crate::rust::mir::{
    carries_dyn, contains_dyn, holds_dyn, is_dyn, is_pointer, successors_of, type_carries_dyn,
    type_contains_dyn, type_is_pointer, well_formed_body, whole, AssignmentModel, MirBlock,
    BlockModel, BodyModel, CallTerminator, CallTerminatorModel, MirBody, MirType, OperandModel,
    Place, PlaceModel, Projection, Terminator, TerminatorModel, TypeModel,
};
use crate::rust::provenance::{
    add_place, alias_places, blank, find_number, flow_at, forget_number, is_uncertain, joint,
    known_number, merge_at, merged_at, nothing, parameter_flow, place_alias_is_uncertain,
    read_dyn_place, resolve_alias_places, set_at, steps_behind_deref, value_at, with_item,
    without_key, write_dyn_place, written, DynFlow, DynModel, DynState, PlaceEntry, PlaceList,
    StateModel,
};
use crate::rust::respecialize::capped;
use crate::sets::{add_reason, with_reason};
use vstd::prelude::*;

verus! {

/// The numbers among the first `count` that are known alike on both sides.
pub open spec fn shared_numbers(
    left: Seq<(usize, u64)>,
    right: Seq<(usize, u64)>,
    count: int,
) -> Seq<(usize, u64)>
    decreases count,
{
    if count <= 0 {
        Seq::empty()
    } else {
        let before = shared_numbers(left, right, count - 1);
        let (local, value) = left[count - 1];
        if known_number(right, local) == Some(value) {
            before.push((local, value))
        } else {
            before
        }
    }
}

fn keep_shared_numbers(left: &mut Vec<(usize, u64)>, right: &Vec<(usize, u64)>)
    ensures
        final(left)@ == shared_numbers(old(left)@, right@, old(left)@.len() as int),
{
    let mut kept: Vec<(usize, u64)> = Vec::new();
    let mut index: usize = 0;
    while index < left.len()
        invariant
            index <= left@.len(),
            left@ == old(left)@,
            kept@ == shared_numbers(left@, right@, index as int),
        decreases left@.len() - index,
    {
        let (local, value): (usize, u64) = left[index];
        let same = match find_number(right, local) {
            Some(other) => other == value,
            None => false,
        };
        if same {
            kept.push((local, value));
        }
        index += 1;
    }
    *left = kept;
}

/// Flows with the first `count` of more, and whether that changed what stands
/// behind a place.
pub open spec fn flows_joined(
    flows: Seq<(PlaceModel, DynModel)>,
    more: Seq<(PlaceModel, DynModel)>,
    count: int,
) -> (Seq<(PlaceModel, DynModel)>, bool)
    decreases count,
{
    if count <= 0 {
        (flows, false)
    } else {
        let (before, changed) = flows_joined(flows, more, count - 1);
        let (place, flow) = more[count - 1];
        let old_flow = match value_of(before, place) {
            Some(old_flow) => old_flow,
            None => nothing(),
        };
        (merged_at(before, place, flow), changed || joint(old_flow, flow) != old_flow)
    }
}

fn join_flows(flows: &mut Vec<PlaceEntry<DynFlow>>, more: &Vec<PlaceEntry<DynFlow>>) -> (changed:
    bool)
    ensures
        (views(final(flows)@), changed) == flows_joined(
            views(old(flows)@),
            views(more@),
            more@.len() as int,
        ),
{
    let ghost start = views(flows@);
    let mut changed = false;
    let mut index: usize = 0;
    while index < more.len()
        invariant
            index <= more@.len(),
            (views(flows@), changed) == flows_joined(start, views(more@), index as int),
        decreases more@.len() - index,
    {
        proof {
            assert(views(more@)[index as int] == more@[index as int]@);
        }
        let entry = &more[index];
        if merge_at(flows, &entry.place, &entry.value) {
            changed = true;
        }
        index += 1;
    }
    changed
}

/// A list of places with the first `count` of more, and whether one of them
/// was new.
pub open spec fn places_joined(places: Seq<PlaceModel>, more: Seq<PlaceModel>, count: int) -> (
    Seq<PlaceModel>,
    bool,
)
    decreases count,
{
    if count <= 0 {
        (places, false)
    } else {
        let (before, changed) = places_joined(places, more, count - 1);
        (with_item(before, more[count - 1]), changed || !before.contains(more[count - 1]))
    }
}

/// Adds places to a list, and says whether one of them was new.
pub fn join_places(places: &mut Vec<Place>, more: &Vec<Place>) -> (changed: bool)
    ensures
        (views(final(places)@), changed) == places_joined(
            views(old(places)@),
            views(more@),
            more@.len() as int,
        ),
{
    let ghost start = views(places@);
    let mut changed = false;
    let mut index: usize = 0;
    while index < more.len()
        invariant
            index <= more@.len(),
            (views(places@), changed) == places_joined(start, views(more@), index as int),
        decreases more@.len() - index,
    {
        let ghost before = views(places@);
        proof {
            assert(views(more@)[index as int] == more@[index as int]@);
            let place = more@[index as int]@;
            assert(before.push(place).len() != before.len());
            assert((with_item(before, place) != before) == !before.contains(place));
        }
        if add_place(places, &more[index]) {
            changed = true;
        }
        index += 1;
    }
    changed
}

/// Aliases with the first `count` of more, and whether a place was new.
pub open spec fn aliases_joined(
    aliases: Seq<(PlaceModel, Seq<PlaceModel>)>,
    more: Seq<(PlaceModel, Seq<PlaceModel>)>,
    count: int,
) -> (Seq<(PlaceModel, Seq<PlaceModel>)>, bool)
    decreases count,
{
    if count <= 0 {
        (aliases, false)
    } else {
        let (before, changed) = aliases_joined(aliases, more, count - 1);
        let (place, targets) = more[count - 1];
        let old_targets = match value_of(before, place) {
            Some(old_targets) => old_targets,
            None => Seq::empty(),
        };
        let (new_targets, new) = places_joined(old_targets, targets, targets.len() as int);
        (bound(before, place, new_targets), changed || new)
    }
}

fn join_aliases(
    aliases: &mut Vec<PlaceEntry<PlaceList>>,
    more: &Vec<PlaceEntry<PlaceList>>,
) -> (changed: bool)
    ensures
        (views(final(aliases)@), changed) == aliases_joined(
            views(old(aliases)@),
            views(more@),
            more@.len() as int,
        ),
{
    let ghost start = views(aliases@);
    let mut changed = false;
    let mut index: usize = 0;
    while index < more.len()
        invariant
            index <= more@.len(),
            (views(aliases@), changed) == aliases_joined(start, views(more@), index as int),
        decreases more@.len() - index,
    {
        let entry = &more[index];
        proof {
            assert(views(more@)[index as int] == entry@);
            assert(entry.value@.len() == entry.value.places@.len());
        }
        let mut targets: Vec<Place> = match value_at(aliases, &entry.place) {
            Some(targets) => copy_list(&targets.places),
            None => Vec::new(),
        };
        proof {
            if value_of(views(aliases@), entry.place@) is None {
                assert(views(targets@) =~= Seq::empty());
            }
        }
        if join_places(&mut targets, &entry.value.places) {
            changed = true;
        }
        set_at(aliases, &entry.place, PlaceList { places: targets });
        index += 1;
    }
    changed
}

/// What is known after either of two states, and whether that is less than
/// what the first knows.
pub open spec fn states_joined(left: StateModel, right: StateModel) -> (StateModel, bool) {
    let numbers = shared_numbers(
        left.constant_indices,
        right.constant_indices,
        left.constant_indices.len() as int,
    );
    let (flows, flows_changed) = flows_joined(left.flows, right.flows, right.flows.len() as int);
    let (aliases, aliases_changed) = aliases_joined(
        left.aliases,
        right.aliases,
        right.aliases.len() as int,
    );
    let (uncertain, uncertain_changed) = places_joined(
        left.uncertain_aliases,
        right.uncertain_aliases,
        right.uncertain_aliases.len() as int,
    );
    let (known, known_changed) = places_joined(
        left.known,
        right.known,
        right.known.len() as int,
    );
    (
        StateModel {
            flows,
            aliases,
            uncertain_aliases: uncertain,
            constant_indices: numbers,
            known,
        },
        numbers.len() != left.constant_indices.len() || flows_changed || aliases_changed
            || uncertain_changed || known_changed,
    )
}

/// What is known where a block is entered, if it is entered at all.
pub struct Arrival {
    pub state: Option<DynState>,
}

impl View for Arrival {
    type V = Option<StateModel>;

    open spec fn view(&self) -> Option<StateModel> {
        match self.state {
            Some(state) => Some(state@),
            None => None,
        }
    }
}

/// What is known where a block is entered after one more state comes in, and
/// whether that changed.
pub open spec fn arrived(arrival: Option<StateModel>, state: StateModel) -> (
    Option<StateModel>,
    bool,
) {
    match arrival {
        None => (Some(state), true),
        Some(before) => {
            let (after, changed) = states_joined(before, state);
            (Some(after), changed)
        },
    }
}

/// Joins a state to what is known where a block is entered, and says whether
/// that changed.
pub fn merge_dyn_state(arrival: &Arrival, source: &DynState) -> (result: (Arrival, bool))
    ensures
        (result.0@, result.1) == arrived(arrival@, source@),
{
    match &arrival.state {
        None => (Arrival { state: Some(source.clone()) }, true),
        Some(before) => {
            let mut state = before.clone();
            proof {
                assert(source@.flows.len() == source.flows@.len());
                assert(source@.aliases.len() == source.aliases@.len());
                assert(source@.uncertain_aliases.len() == source.uncertain_aliases@.len());
                assert(source@.known.len() == source.known@.len());
            }
            let count: usize = state.constant_indices.len();
            keep_shared_numbers(&mut state.constant_indices, &source.constant_indices);
            let numbers = state.constant_indices.len() != count;
            let flows = join_flows(&mut state.flows, &source.flows);
            let aliases = join_aliases(&mut state.aliases, &source.aliases);
            let uncertain = join_places(&mut state.uncertain_aliases, &source.uncertain_aliases);
            let known = join_places(&mut state.known, &source.known);
            (
                Arrival { state: Some(state) },
                numbers || flows || aliases || uncertain || known,
            )
        },
    }
}

/// What stands behind the arguments of a call, if it is reached.
pub struct CallFlow {
    pub arguments: Option<Vec<DynFlow>>,
}

impl View for CallFlow {
    type V = Option<Seq<DynModel>>;

    open spec fn view(&self) -> Option<Seq<DynModel>> {
        match self.arguments {
            Some(arguments) => Some(views(arguments@)),
            None => None,
        }
    }
}

/// A flow at a place of a list, or nothing behind its end.
pub open spec fn flow_or_nothing(flows: Seq<DynModel>, index: int) -> DynModel {
    if 0 <= index < flows.len() {
        flows[index]
    } else {
        nothing()
    }
}

/// What stands behind the values of either of two lists.
pub open spec fn lists_joined(left: Seq<DynModel>, right: Seq<DynModel>) -> Seq<DynModel> {
    let length = if left.len() < right.len() {
        right.len()
    } else {
        left.len()
    };
    Seq::new(
        length,
        |index: int|
            if index < right.len() {
                joint(flow_or_nothing(left, index), right[index])
            } else {
                left[index]
            },
    )
}

/// Whether one of the first `count` values of the right list adds to the left.
pub open spec fn lists_differ(left: Seq<DynModel>, right: Seq<DynModel>, count: int) -> bool
    decreases count,
{
    count > 0 && (lists_differ(left, right, count - 1) || joint(
        flow_or_nothing(left, count - 1),
        right[count - 1],
    ) != flow_or_nothing(left, count - 1))
}

/// Joins the flows of two lists, and says whether that changed the first.
pub fn join_lists(left: &Vec<DynFlow>, right: &Vec<DynFlow>) -> (result: (Vec<DynFlow>, bool))
    ensures
        views(result.0@) == lists_joined(views(left@), views(right@)),
        result.1 == lists_differ(views(left@), views(right@), right@.len() as int),
{
    let mut joined: Vec<DynFlow> = Vec::new();
    let mut changed = false;
    let length: usize = if left.len() < right.len() {
        right.len()
    } else {
        left.len()
    };
    let mut index: usize = 0;
    while index < length
        invariant
            index <= length,
            length == (if left@.len() < right@.len() {
                right@.len()
            } else {
                left@.len()
            }),
            joined@.len() == index,
            forall|k: int|
                0 <= k < index ==> (#[trigger] joined@[k])@ == lists_joined(
                    views(left@),
                    views(right@),
                )[k],
            changed == lists_differ(
                views(left@),
                views(right@),
                if index < right@.len() {
                    index as int
                } else {
                    right@.len() as int
                },
            ),
        decreases length - index,
    {
        let mut flow = if index < left.len() {
            left[index].clone()
        } else {
            DynFlow::empty()
        };
        proof {
            assert(flow@ == flow_or_nothing(views(left@), index as int));
        }
        if index < right.len() {
            proof {
                assert(views(right@)[index as int] == right@[index as int]@);
            }
            if flow.merge(&right[index]) {
                changed = true;
            }
        }
        joined.push(flow);
        index += 1;
    }
    proof {
        assert(views(joined@) =~= lists_joined(views(left@), views(right@)));
    }
    (joined, changed)
}

/// What stands behind the arguments of a call that is reached once more.
pub open spec fn call_joined(call: Option<Seq<DynModel>>, flows: Seq<DynModel>) -> Seq<DynModel> {
    match call {
        None => flows,
        Some(before) => lists_joined(before, flows),
    }
}

/// Adds to what stands behind the arguments of a call.
pub fn merge_call_flow(call: &CallFlow, flows: &Vec<DynFlow>) -> (result: CallFlow)
    ensures
        result@ == Some(call_joined(call@, views(flows@))),
{
    let arguments = match &call.arguments {
        None => copy_list(flows),
        Some(before) => {
            let (joined, changed) = join_lists(before, flows);
            joined
        },
    };
    CallFlow { arguments: Some(arguments) }
}

/// What a body does, as far as the analysis knows.
pub struct BodyDynAnalysis {
    pub calls: Vec<CallFlow>,
    pub return_flow: DynFlow,
    pub return_aliases: Vec<Place>,
    pub return_alias_open: bool,
    pub parameter_effects: Vec<DynFlow>,
    pub generated_coroutine_flows: Vec<NumberedFlow>,
}

#[verifier::ext_equal]
pub struct AnalysisModel {
    pub calls: Seq<Option<Seq<DynModel>>>,
    pub return_flow: DynModel,
    pub return_aliases: Seq<PlaceModel>,
    pub return_alias_open: bool,
    pub parameter_effects: Seq<DynModel>,
    pub generated_coroutine_flows: Seq<(usize, DynModel)>,
}

impl View for BodyDynAnalysis {
    type V = AnalysisModel;

    open spec fn view(&self) -> AnalysisModel {
        AnalysisModel {
            calls: views(self.calls@),
            return_flow: self.return_flow@,
            return_aliases: views(self.return_aliases@),
            return_alias_open: self.return_alias_open,
            parameter_effects: views(self.parameter_effects@),
            generated_coroutine_flows: views(self.generated_coroutine_flows@),
        }
    }
}

/// What is known while the blocks of a body are run: what is known at their
/// entries, and which are to be run once more.
pub struct Progress {
    pub incoming: Vec<Arrival>,
    pub pending: Vec<usize>,
    pub analysis: BodyDynAnalysis,
}

#[verifier::ext_equal]
pub struct ProgressModel {
    pub incoming: Seq<Option<StateModel>>,
    pub pending: Seq<usize>,
    pub analysis: AnalysisModel,
}

impl View for Progress {
    type V = ProgressModel;

    open spec fn view(&self) -> ProgressModel {
        ProgressModel {
            incoming: views(self.incoming@),
            pending: self.pending@,
            analysis: self.analysis@,
        }
    }
}

/// What is known after the first `count` assignments.
pub open spec fn after_assignments(
    run: RunModel,
    assignments: Seq<AssignmentModel>,
    count: int,
) -> RunModel
    decreases count,
{
    if count <= 0 {
        run
    } else {
        after_assignment(
            after_assignments(run, assignments, count - 1),
            assignments[count - 1],
        )
    }
}

/// The progress after a block was left for the first `count` of some blocks:
/// for the one that is the target with one state, for others with another.
pub open spec fn left_for(
    incoming: Seq<Option<StateModel>>,
    pending: Seq<usize>,
    successors: Seq<usize>,
    state: StateModel,
    target: Option<usize>,
    delivered: StateModel,
    count: int,
) -> (Seq<Option<StateModel>>, Seq<usize>)
    decreases count,
{
    if count <= 0 {
        (incoming, pending)
    } else {
        let (incoming, pending) = left_for(
            incoming,
            pending,
            successors,
            state,
            target,
            delivered,
            count - 1,
        );
        let block = successors[count - 1];
        let (arrival, changed) = arrived(
            incoming[block as int],
            if target == Some(block) {
                delivered
            } else {
                state
            },
        );
        (
            incoming.update(block as int, arrival),
            if changed {
                pending.push(block)
            } else {
                pending
            },
        )
    }
}

/// The state after a call returned.
pub open spec fn after_return(
    state: StateModel,
    call: CallTerminatorModel,
    flow: DynModel,
    alias: Option<(Seq<PlaceModel>, bool)>,
) -> StateModel {
    let destination = call.destination;
    let forgotten = if destination.projection.len() == 0 {
        StateModel {
            constant_indices: without_key(state.constant_indices, destination.local),
            ..state
        }
    } else {
        state
    };
    let stored = written(forgotten, destination, flow);
    match alias {
        Some((targets, uncertain)) => with_alias(stored, destination, targets, uncertain),
        None => stored,
    }
}

/// What the first `count` places say of a returned reference: the parameters
/// that it can lead to, and whether it can lead elsewhere.
pub open spec fn return_aliases(
    aliases: Seq<PlaceModel>,
    open: bool,
    body: BodyModel,
    targets: Seq<PlaceModel>,
    count: int,
) -> (Seq<PlaceModel>, bool)
    decreases count,
{
    if count <= 0 {
        (aliases, open)
    } else {
        let (aliases, open) = return_aliases(aliases, open, body, targets, count - 1);
        let target = targets[count - 1];
        if target.local == 0 {
            (aliases, open || is_pointer(body.return_type.text))
        } else if target.local > body.argument_types.len() {
            (aliases, true)
        } else {
            (
                with_item(
                    aliases,
                    PlaceModel {
                        local: (target.local - 1) as usize,
                        projection: steps_behind_deref(target.projection),
                    },
                ),
                open,
            )
        }
    }
}

/// What is known of a body after it returned in a state.
pub open spec fn with_return(
    analysis: AnalysisModel,
    body: BodyModel,
    state: StateModel,
) -> AnalysisModel {
    let targets = alias_places(state, whole(0));
    let (aliases, open) = return_aliases(
        analysis.return_aliases,
        analysis.return_alias_open || is_uncertain(state, whole(0)),
        body,
        targets,
        targets.len() as int,
    );
    AnalysisModel {
        return_flow: joint(analysis.return_flow, flow_at(state, whole(0))),
        return_aliases: aliases,
        return_alias_open: open,
        ..analysis
    }
}

/// The progress after a block was run.
pub open spec fn after_block(
    body: BodyModel,
    known: KnowledgeModel,
    progress: ProgressModel,
    block: usize,
) -> ProgressModel {
    match progress.incoming[block as int] {
        None => progress,
        Some(state) => {
            let run = after_assignments(
                RunModel {
                    state,
                    effects: progress.analysis.parameter_effects,
                    coroutines: progress.analysis.generated_coroutine_flows,
                },
                body.blocks[block as int].assignments,
                body.blocks[block as int].assignments.len() as int,
            );
            let analysis = AnalysisModel {
                parameter_effects: run.effects,
                generated_coroutine_flows: run.coroutines,
                ..progress.analysis
            };
            match body.blocks[block as int].terminator {
                TerminatorModel::Call(call) => {
                    let flows = operand_flows(run.state, call.arguments);
                    let (after, effects) = after_call(
                        known,
                        run.state,
                        run.effects,
                        call,
                        flows,
                    );
                    let delivered = after_return(
                        after,
                        call,
                        returned_flow(known, call, flows),
                        returned_alias(known, after, call),
                    );
                    let (incoming, pending) = left_for(
                        progress.incoming,
                        progress.pending,
                        call.successors,
                        after,
                        call.target,
                        delivered,
                        call.successors.len() as int,
                    );
                    ProgressModel {
                        incoming,
                        pending,
                        analysis: AnalysisModel {
                            calls: analysis.calls.update(
                                block as int,
                                Some(call_joined(analysis.calls[block as int], flows)),
                            ),
                            parameter_effects: effects,
                            ..analysis
                        },
                    }
                },
                TerminatorModel::Return => ProgressModel {
                    analysis: with_return(analysis, body, run.state),
                    ..progress
                },
                TerminatorModel::Jump { successors } => {
                    let (incoming, pending) = left_for(
                        progress.incoming,
                        progress.pending,
                        successors,
                        run.state,
                        None,
                        run.state,
                        successors.len() as int,
                    );
                    ProgressModel { incoming, pending, analysis }
                },
            }
        },
    }
}

/// A flow that may be more than what is known, because the analysis stopped.
pub open spec fn limited(flow: DynModel) -> DynModel {
    DynModel {
        unresolved_reasons: with_reason(
            flow.unresolved_reasons,
            UnresolvedReason::AnalysisLimit,
        ),
        ..flow
    }
}

/// What stands behind the arguments of a call when the analysis stopped.
pub open spec fn limited_call(call: Option<Seq<DynModel>>, arguments: Seq<OperandModel>) -> Seq<
    DynModel,
> {
    let flows = match call {
        Some(flows) => flows,
        None => Seq::empty(),
    };
    Seq::new(
        arguments.len(),
        |index: int|
            if is_dyn(arguments[index].ty) {
                limited(flow_or_nothing(flows, index))
            } else {
                flow_or_nothing(flows, index)
            },
    )
}

/// What is known of the calls of a body when the analysis stopped.
pub open spec fn limited_calls(
    calls: Seq<Option<Seq<DynModel>>>,
    blocks: Seq<BlockModel>,
) -> Seq<Option<Seq<DynModel>>> {
    Seq::new(
        calls.len(),
        |index: int|
            match blocks[index].terminator {
                TerminatorModel::Call(call) => Some(limited_call(calls[index], call.arguments)),
                _ => calls[index],
            },
    )
}

/// What is known of a body when the analysis stopped before it was done.
pub open spec fn degraded(body: BodyModel, analysis: AnalysisModel) -> AnalysisModel {
    AnalysisModel {
        return_flow: if contains_dyn(body.return_type.text) {
            limited(analysis.return_flow)
        } else {
            analysis.return_flow
        },
        calls: limited_calls(analysis.calls, body.blocks),
        ..analysis
    }
}

/// What is known of a body after at most `fuel` more blocks were run.
pub open spec fn analysis_from(
    body: BodyModel,
    known: KnowledgeModel,
    progress: ProgressModel,
    fuel: nat,
) -> AnalysisModel
    decreases fuel,
{
    if progress.pending.len() == 0 {
        progress.analysis
    } else if fuel == 0 {
        degraded(body, progress.analysis)
    } else {
        analysis_from(
            body,
            known,
            after_block(
                body,
                known,
                ProgressModel { pending: progress.pending.skip(1), ..progress },
                progress.pending[0],
            ),
            (fuel - 1) as nat,
        )
    }
}

/// What stands behind the first `count` parameters where a body is entered.
pub open spec fn entry_flows(types: Seq<TypeModel>, count: int) -> Seq<(PlaceModel, DynModel)>
    decreases count,
{
    if count <= 0 {
        Seq::empty()
    } else {
        let before = entry_flows(types, count - 1);
        if carries_dyn(types[count - 1].text) {
            bound(before, whole(count as usize), parameter_flow((count - 1) as usize))
        } else {
            before
        }
    }
}

/// How many blocks of a body are run before the analysis stops.
pub open spec fn block_limit(blocks: nat, locals: nat) -> nat {
    let limit = capped(capped(blocks * capped((locals + 1) as int)) * 16);
    if limit < 1 {
        1
    } else {
        limit as nat
    }
}

/// What is known of a body before it is run.
pub open spec fn no_analysis(body: BodyModel) -> AnalysisModel {
    AnalysisModel {
        calls: Seq::new(body.blocks.len(), |index: int| None),
        return_flow: nothing(),
        return_aliases: Seq::empty(),
        return_alias_open: false,
        parameter_effects: Seq::new(body.argument_types.len(), |index: int| nothing()),
        generated_coroutine_flows: Seq::empty(),
    }
}

/// What is known of a body.
pub open spec fn body_analysis(body: BodyModel, known: KnowledgeModel) -> AnalysisModel {
    if body.blocks.len() == 0 {
        no_analysis(body)
    } else {
        let entry = StateModel {
            flows: entry_flows(body.argument_types, body.argument_types.len() as int),
            ..blank()
        };
        analysis_from(
            body,
            known,
            ProgressModel {
                incoming: Seq::new(body.blocks.len(), |index: int| None).update(0, Some(entry)),
                pending: seq![0],
                analysis: no_analysis(body),
            },
            block_limit(body.blocks.len(), body.locals as nat),
        )
    }
}

/// Whether the lists of a progress fit a body.
pub open spec fn fits(body: BodyModel, progress: ProgressModel) -> bool {
    &&& progress.incoming.len() == body.blocks.len()
    &&& progress.analysis.calls.len() == body.blocks.len()
    &&& forall|index: int|
        0 <= index < progress.pending.len() ==> #[trigger] progress.pending[index]
            < body.blocks.len()
}

fn leave_for(
    incoming: &mut Vec<Arrival>,
    pending: &mut Vec<usize>,
    successors: &Vec<usize>,
    state: &DynState,
    target: Option<usize>,
    delivered: &DynState,
)
    requires
        forall|index: int|
            0 <= index < successors@.len() ==> #[trigger] successors@[index] < old(
                incoming,
            )@.len(),
        forall|index: int|
            0 <= index < old(pending)@.len() ==> #[trigger] old(pending)@[index] < old(
                incoming,
            )@.len(),
    ensures
        (views(final(incoming)@), final(pending)@) == left_for(
            views(old(incoming)@),
            old(pending)@,
            successors@,
            state@,
            target,
            delivered@,
            successors@.len() as int,
        ),
        final(incoming)@.len() == old(incoming)@.len(),
        forall|index: int|
            0 <= index < final(pending)@.len() ==> #[trigger] final(pending)@[index] < old(
                incoming,
            )@.len(),
{
    let ghost first_incoming = views(incoming@);
    let ghost first_pending = pending@;
    let count: usize = incoming.len();
    let mut index: usize = 0;
    while index < successors.len()
        invariant
            index <= successors@.len(),
            incoming@.len() == count,
            forall|k: int| 0 <= k < successors@.len() ==> #[trigger] successors@[k] < count,
            forall|k: int| 0 <= k < pending@.len() ==> #[trigger] pending@[k] < count,
            (views(incoming@), pending@) == left_for(
                first_incoming,
                first_pending,
                successors@,
                state@,
                target,
                delivered@,
                index as int,
            ),
        decreases successors@.len() - index,
    {
        let block: usize = successors[index];
        let is_target = match target {
            Some(target) => target == block,
            None => false,
        };
        let ghost before = views(incoming@);
        proof {
            assert(before[block as int] == incoming@[block as int]@);
        }
        let (arrival, changed) = merge_dyn_state(
            &incoming[block],
            if is_target {
                delivered
            } else {
                state
            },
        );
        let ghost model = arrival@;
        incoming.set(block, arrival);
        proof {
            assert(views(incoming@) =~= before.update(block as int, model));
        }
        if changed {
            pending.push(block);
        }
        index += 1;
    }
}

fn run_assignments(
    state: &mut DynState,
    block: &MirBlock,
    effects: &mut Vec<DynFlow>,
    coroutines: &mut Vec<NumberedFlow>,
)
    ensures
        (RunModel {
            state: final(state)@,
            effects: views(final(effects)@),
            coroutines: views(final(coroutines)@),
        }) == after_assignments(
            (RunModel {
                state: old(state)@,
                effects: views(old(effects)@),
                coroutines: views(old(coroutines)@),
            }),
            block@.assignments,
            block@.assignments.len() as int,
        ),
{
    let ghost start = RunModel {
        state: state@,
        effects: views(effects@),
        coroutines: views(coroutines@),
    };
    let mut index: usize = 0;
    proof {
        assert(block@.assignments.len() == block.assignments@.len());
    }
    while index < block.assignments.len()
        invariant
            index <= block.assignments@.len(),
            (RunModel {
                state: state@,
                effects: views(effects@),
                coroutines: views(coroutines@),
            }) == after_assignments(start, block@.assignments, index as int),
        decreases block.assignments@.len() - index,
    {
        proof {
            assert(block@.assignments[index as int] == block.assignments@[index as int]@);
        }
        transfer_dyn_statement(state, &block.assignments[index], effects, coroutines);
        index += 1;
    }
}

fn deliver(
    state: &DynState,
    call: &CallTerminator,
    flow: &DynFlow,
    alias: Option<(Vec<Place>, bool)>,
) -> (result: DynState)
    ensures
        result@ == after_return(
            state@,
            call@,
            flow@,
            match alias {
                Some((targets, uncertain)) => Some((views(targets@), uncertain)),
                None => None,
            },
        ),
{
    let mut result = state.clone();
    if call.destination.projection.len() == 0 {
        forget_number(&mut result.constant_indices, call.destination.local);
    }
    write_dyn_place(&mut result, &call.destination, flow);
    match alias {
        Some((targets, uncertain)) => {
            set_alias(&mut result, &call.destination, targets, uncertain);
        },
        None => {},
    }
    result
}

fn without_first_deref(steps: &Vec<Projection>) -> (result: Vec<Projection>)
    ensures
        result@ == steps_behind_deref(steps@),
{
    let first: usize = if steps.len() > 0 && steps[0] == Projection::Deref {
        1
    } else {
        0
    };
    let mut result: Vec<Projection> = Vec::new();
    let mut index: usize = first;
    while index < steps.len()
        invariant
            first <= index <= steps@.len(),
            result@ == steps@.subrange(first as int, index as int),
        decreases steps@.len() - index,
    {
        result.push(steps[index]);
        proof {
            assert(steps@.subrange(first as int, index + 1) =~= steps@.subrange(
                first as int,
                index as int,
            ).push(steps@[index as int]));
        }
        index += 1;
    }
    proof {
        assert(steps@.subrange(first as int, steps@.len() as int) =~= steps_behind_deref(steps@));
    }
    result
}

fn note_return(analysis: &mut BodyDynAnalysis, body: &MirBody, state: &DynState)
    ensures
        final(analysis)@ == with_return(old(analysis)@, body@, state@),
{
    let place = Place::of_local(0);
    let flow = read_dyn_place(state, &place);
    let merged = analysis.return_flow.merge(&flow);
    let targets = resolve_alias_places(state, &place);
    if place_alias_is_uncertain(state, &place) {
        analysis.return_alias_open = true;
    }
    let ghost first_aliases = views(analysis.return_aliases@);
    let ghost first_open = analysis.return_alias_open;
    let ghost others = analysis@;
    let arguments: usize = body.argument_types.len();
    let mut index: usize = 0;
    proof {
        assert(body@.argument_types.len() == arguments);
        assert(views(targets@).len() == targets@.len());
    }
    while index < targets.len()
        invariant
            index <= targets@.len(),
            body@.argument_types.len() == arguments,
            analysis@ == (AnalysisModel {
                return_aliases: analysis@.return_aliases,
                return_alias_open: analysis@.return_alias_open,
                ..others
            }),
            (analysis@.return_aliases, analysis@.return_alias_open) == return_aliases(
                first_aliases,
                first_open,
                body@,
                views(targets@),
                index as int,
            ),
        decreases targets@.len() - index,
    {
        let target = &targets[index];
        proof {
            assert(views(targets@)[index as int] == target@);
        }
        if target.local == 0 {
            if type_is_pointer(&body.return_type) {
                analysis.return_alias_open = true;
            }
        } else if target.local > arguments {
            analysis.return_alias_open = true;
        } else {
            let alias = Place {
                local: target.local - 1,
                projection: without_first_deref(&target.projection),
            };
            let added = add_place(&mut analysis.return_aliases, &alias);
        }
        index += 1;
    }
}

fn limit_flow(flow: &mut DynFlow)
    ensures
        final(flow)@ == limited(old(flow)@),
{
    let added = add_reason(&mut flow.unresolved_reasons, UnresolvedReason::AnalysisLimit);
}

fn limit_call(call: &CallFlow, terminator: &CallTerminator) -> (result: CallFlow)
    ensures
        result@ == Some(limited_call(call@, terminator@.arguments)),
{
    let mut flows: Vec<DynFlow> = Vec::new();
    let mut index: usize = 0;
    proof {
        assert(terminator@.arguments.len() == terminator.arguments@.len());
    }
    while index < terminator.arguments.len()
        invariant
            index <= terminator.arguments@.len(),
            terminator@.arguments.len() == terminator.arguments@.len(),
            flows@.len() == index,
            forall|k: int|
                0 <= k < index ==> (#[trigger] flows@[k])@ == limited_call(
                    call@,
                    terminator@.arguments,
                )[k],
        decreases terminator.arguments@.len() - index,
    {
        let mut flow = match &call.arguments {
            Some(arguments) => if index < arguments.len() {
                arguments[index].clone()
            } else {
                DynFlow::empty()
            },
            None => DynFlow::empty(),
        };
        proof {
            assert(terminator@.arguments[index as int] == terminator.arguments@[index as int]@);
        }
        if holds_dyn(&terminator.arguments[index].ty) {
            limit_flow(&mut flow);
        }
        flows.push(flow);
        index += 1;
    }
    proof {
        assert(views(flows@) =~= limited_call(call@, terminator@.arguments));
    }
    CallFlow { arguments: Some(flows) }
}

/// Marks what may be more than what is known, because the analysis stopped.
pub fn degrade_dyn_analysis_to_unknown(body: &MirBody, analysis: &mut BodyDynAnalysis)
    requires
        old(analysis)@.calls.len() == body@.blocks.len(),
    ensures
        final(analysis)@ == degraded(body@, old(analysis)@),
{
    let ghost start = analysis@;
    if type_contains_dyn(&body.return_type) {
        limit_flow(&mut analysis.return_flow);
    }
    let ghost others = analysis@;
    let mut index: usize = 0;
    proof {
        assert(body@.blocks.len() == body.blocks@.len());
        assert(start.calls.len() == analysis.calls@.len());
    }
    while index < body.blocks.len()
        invariant
            index <= body.blocks@.len(),
            body@.blocks.len() == body.blocks@.len(),
            analysis.calls@.len() == body.blocks@.len(),
            start.calls.len() == body.blocks@.len(),
            analysis@ == (AnalysisModel { calls: analysis@.calls, ..others }),
            forall|k: int|
                0 <= k < body.blocks@.len() ==> #[trigger] views(analysis.calls@)[k] == (if k
                    < index {
                    limited_calls(start.calls, body@.blocks)[k]
                } else {
                    start.calls[k]
                }),
        decreases body.blocks@.len() - index,
    {
        proof {
            assert(body@.blocks[index as int] == body.blocks@[index as int]@);
            assert(views(analysis.calls@)[index as int] == analysis.calls@[index as int]@);
        }
        let ghost before = views(analysis.calls@);
        match &body.blocks[index].terminator {
            Terminator::Call(call) => {
                let limited = limit_call(&analysis.calls[index], call);
                let ghost model = limited@;
                analysis.calls.set(index, limited);
                proof {
                    assert(views(analysis.calls@) =~= before.update(index as int, model));
                }
            },
            _ => {},
        }
        index += 1;
    }
    proof {
        assert(views(analysis.calls@) =~= limited_calls(start.calls, body@.blocks));
    }
}

fn run_block(known: &CallKnowledge, body: &MirBody, progress: &mut Progress, block: usize)
    requires
        well_formed_body(body@),
        fits(body@, old(progress)@),
        block < body@.blocks.len(),
    ensures
        final(progress)@ == after_block(body@, known@, old(progress)@, block),
        fits(body@, final(progress)@),
{
    proof {
        assert(progress@.incoming.len() == progress.incoming@.len());
        assert(progress@.analysis.calls.len() == progress.analysis.calls@.len());
        assert(body@.blocks.len() == body.blocks@.len());
        assert(progress@.incoming[block as int] == progress.incoming@[block as int]@);
        assert(body@.blocks[block as int] == body.blocks@[block as int]@);
        assert forall|place: int|
            0 <= place < successors_of(body@.blocks[block as int].terminator).len() implies
            #[trigger] successors_of(body@.blocks[block as int].terminator)[place]
                < progress.incoming@.len() by {}
        assert forall|place: int| 0 <= place < progress.pending@.len() implies
            #[trigger] progress.pending@[place] < progress.incoming@.len() by {
            assert(progress@.pending[place] < body@.blocks.len());
        }
    }
    let mut state = match &progress.incoming[block].state {
        Some(state) => state.clone(),
        None => {
            return ;
        },
    };
    run_assignments(
        &mut state,
        &body.blocks[block],
        &mut progress.analysis.parameter_effects,
        &mut progress.analysis.generated_coroutine_flows,
    );
    match &body.blocks[block].terminator {
        Terminator::Call(call) => {
            let flows = flows_for_operands(&state, &call.arguments);
            proof {
                assert(views(flows@).len() == call@.arguments.len());
                assert(views(flows@).len() == flows@.len());
                assert(call@.arguments.len() == call.arguments@.len());
            }
            let ghost calls = views(progress.analysis.calls@);
            proof {
                assert(calls[block as int] == progress.analysis.calls@[block as int]@);
            }
            let reached = merge_call_flow(&progress.analysis.calls[block], &flows);
            let ghost model = reached@;
            progress.analysis.calls.set(block, reached);
            proof {
                assert(views(progress.analysis.calls@) =~= calls.update(block as int, model));
            }
            let flow = flow_of_call(known, call, &flows);
            apply_call_memory_effects(
                known,
                &mut state,
                &mut progress.analysis.parameter_effects,
                call,
                &flows,
            );
            let alias = returned_call_alias(known, &state, call);
            let delivered = deliver(&state, call, &flow, alias);
            leave_for(
                &mut progress.incoming,
                &mut progress.pending,
                &call.successors,
                &state,
                call.target,
                &delivered,
            );
        },
        Terminator::Return => {
            note_return(&mut progress.analysis, body, &state);
        },
        Terminator::Jump { successors } => {
            leave_for(
                &mut progress.incoming,
                &mut progress.pending,
                successors,
                &state,
                None,
                &state,
            );
        },
    }
}

fn limit_of(blocks: usize, locals: usize) -> (result: usize)
    ensures
        result == block_limit(blocks as nat, locals as nat),
{
    let each: usize = if locals < usize::MAX {
        locals + 1
    } else {
        locals
    };
    let total: usize = match blocks.checked_mul(each) {
        Some(total) => total,
        None => usize::MAX,
    };
    let limit: usize = match total.checked_mul(16) {
        Some(limit) => limit,
        None => usize::MAX,
    };
    if limit < 1 {
        1
    } else {
        limit
    }
}

fn enter(types: &Vec<MirType>) -> (result: DynState)
    ensures
        result@ == (StateModel {
            flows: entry_flows(views(types@), types@.len() as int),
            ..blank()
        }),
{
    let mut state = DynState::new();
    let length: usize = types.len();
    let mut index: usize = 0;
    while index < length
        invariant
            index <= length,
            length == types@.len(),
            state@ == (StateModel { flows: entry_flows(views(types@), index as int), ..blank() }),
        decreases length - index,
    {
        proof {
            assert(views(types@)[index as int] == types@[index as int]@);
        }
        if type_carries_dyn(&types[index]) {
            set_at(&mut state.flows, &Place::of_local(index + 1), DynFlow::parameter(index));
        }
        index += 1;
    }
    state
}

fn start_analysis(body: &MirBody) -> (result: BodyDynAnalysis)
    ensures
        result@ == no_analysis(body@),
{
    let mut calls: Vec<CallFlow> = Vec::new();
    let mut index: usize = 0;
    while index < body.blocks.len()
        invariant
            index <= body.blocks@.len(),
            calls@.len() == index,
            forall|k: int| 0 <= k < index ==> (#[trigger] calls@[k])@ is None,
        decreases body.blocks@.len() - index,
    {
        calls.push(CallFlow { arguments: None });
        index += 1;
    }
    let mut parameter_effects: Vec<DynFlow> = Vec::new();
    let mut place: usize = 0;
    while place < body.argument_types.len()
        invariant
            place <= body.argument_types@.len(),
            parameter_effects@.len() == place,
            forall|k: int| 0 <= k < place ==> (#[trigger] parameter_effects@[k])@ == nothing(),
        decreases body.argument_types@.len() - place,
    {
        parameter_effects.push(DynFlow::empty());
        place += 1;
    }
    let result = BodyDynAnalysis {
        calls,
        return_flow: DynFlow::empty(),
        return_aliases: Vec::new(),
        return_alias_open: false,
        parameter_effects,
        generated_coroutine_flows: Vec::new(),
    };
    proof {
        assert(body@.blocks.len() == body.blocks@.len());
        assert(body@.argument_types.len() == body.argument_types@.len());
        assert(result@ =~= no_analysis(body@));
    }
    result
}

fn first_progress(body: &MirBody) -> (result: Progress)
    requires
        body@.blocks.len() > 0,
    ensures
        result@ == (ProgressModel {
            incoming: Seq::new(body@.blocks.len(), |index: int| None).update(
                0,
                Some(
                    (StateModel {
                        flows: entry_flows(
                            body@.argument_types,
                            body@.argument_types.len() as int,
                        ),
                        ..blank()
                    }),
                ),
            ),
            pending: seq![0],
            analysis: no_analysis(body@),
        }),
        fits(body@, result@),
{
    let analysis = start_analysis(body);
    let entry = enter(&body.argument_types);
    proof {
        assert(body@.blocks.len() == body.blocks@.len());
        assert(body@.argument_types.len() == body.argument_types@.len());
    }
    let ghost model = entry@;
    let mut incoming: Vec<Arrival> = Vec::new();
    incoming.push(Arrival { state: Some(entry) });
    let mut index: usize = 1;
    while index < body.blocks.len()
        invariant
            1 <= index <= body.blocks@.len(),
            incoming@.len() == index,
            incoming@[0]@ == Some(model),
            forall|k: int| 1 <= k < index ==> (#[trigger] incoming@[k])@ is None,
        decreases body.blocks@.len() - index,
    {
        incoming.push(Arrival { state: None });
        index += 1;
    }
    let mut pending: Vec<usize> = Vec::new();
    pending.push(0);
    proof {
        assert(views(incoming@) =~= Seq::new(body@.blocks.len(), |index: int| None).update(
            0,
            Some(model),
        ));
        assert(pending@ =~= seq![0]);
    }
    Progress { incoming, pending, analysis }
}

/// Runs the blocks of a body until nothing changes, or a limit is reached.
pub fn analyze_body_dyn_flows(body: &MirBody, known: &CallKnowledge) -> (result: BodyDynAnalysis)
    requires
        well_formed_body(body@),
    ensures
        result@ == body_analysis(body@, known@),
{
    proof {
        assert(body@.blocks.len() == body.blocks@.len());
    }
    if body.blocks.len() == 0 {
        return start_analysis(body);
    }
    let mut progress = first_progress(body);
    let ghost whole_analysis = body_analysis(body@, known@);
    let mut fuel: usize = limit_of(body.blocks.len(), body.locals);
    while progress.pending.len() > 0
        invariant
            well_formed_body(body@),
            fits(body@, progress@),
            whole_analysis == body_analysis(body@, known@),
            whole_analysis == analysis_from(body@, known@, progress@, fuel as nat),
        decreases fuel,
    {
        if fuel == 0 {
            degrade_dyn_analysis_to_unknown(body, &mut progress.analysis);
            return progress.analysis;
        }
        let ghost before = progress@;
        let block: usize = progress.pending.remove(0);
        proof {
            assert(progress@ =~= (ProgressModel { pending: before.pending.skip(1), ..before }));
            assert(block == before.pending[0]);
            assert forall|index: int| 0 <= index < progress@.pending.len() implies
                #[trigger] progress@.pending[index] < body@.blocks.len() by {
                assert(progress@.pending[index] == before.pending[index + 1]);
            }
        }
        run_block(known, body, &mut progress, block);
        fuel -= 1;
    }
    progress.analysis
}

} // verus!
