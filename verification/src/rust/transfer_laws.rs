//! What an assignment leaves behind: the value that was assigned is read back,
//! and what was not assigned stays.
use crate::lists::{bound_values_are_found, place_of, value_of};
use crate::rust::dataflow::{
    after_assignment, operand_flow, rvalue_flow, with_alias, with_known_number, with_new_alias,
    RunModel,
};
use crate::rust::join_laws::has_type;
use crate::rust::mir::{
    whole, AssignmentModel, ConcreteModel, OperandModel, OperandValueModel, PlaceModel,
    RvalueModel,
};
use crate::rust::provenance::{
    alias_places, aliased_flow, cleared, concretized, distinct, flow_at, flow_places,
    flows_outside, indexed_flow, is_nothing, is_prefix, is_uncertain, joint, meant_places, nothing,
    parts_flow, plain_flow, runtime_index, target_written, targets_written, without_item, written,
    DynModel, StateModel,
};
use crate::rust::settle_laws::joint_flows_hold_each;
use vstd::prelude::*;

verus! {

/// Whether a local stands for itself alone.
pub open spec fn is_unaliased(state: StateModel, local: usize) -> bool {
    &&& forall|at: int|
        0 <= at < state.aliases.len() ==> (#[trigger] state.aliases[at]).0 != whole(local)
    &&& !state.uncertain_aliases.contains(whole(local))
}

proof fn nothing_under_a_key<K, V>(entries: Seq<(K, V)>, key: K, index: int)
    requires
        0 <= index,
        forall|at: int| 0 <= at < entries.len() ==> (#[trigger] entries[at]).0 != key,
    ensures
        place_of(entries, key, index) is None,
    decreases entries.len() - index,
{
    if index < entries.len() {
        nothing_under_a_key(entries, key, index + 1);
    }
}

proof fn first_under_a_key<K, V>(entries: Seq<(K, V)>, key: K, index: int)
    requires
        0 <= index,
    ensures
        match place_of(entries, key, index) {
            Some(place) => index <= place < entries.len() && entries[place].0 == key
                && forall|other: int|
                index <= other < place ==> (#[trigger] entries[other]).0 != key,
            None => forall|other: int|
                index <= other < entries.len() ==> (#[trigger] entries[other]).0 != key,
        },
    decreases entries.len() - index,
{
    if index < entries.len() && entries[index].0 != key {
        first_under_a_key(entries, key, index + 1);
    }
}

proof fn unaliased_locals_stand_alone(state: StateModel, local: usize)
    requires
        is_unaliased(state, local),
    ensures
        alias_places(state, whole(local)) == seq![whole(local)],
        !is_uncertain(state, whole(local)),
        value_of(state.aliases, whole(local)) is None,
{
    nothing_under_a_key(state.aliases, whole(local), 0);
}

proof fn locals_mean_themselves(
    numbers: Seq<(usize, u64)>,
    local: usize,
    places: Seq<PlaceModel>,
    count: int,
)
    ensures
        meant_places(numbers, whole(local), places, count).len() == 0,
    decreases count,
{
    if count > 0 {
        locals_mean_themselves(numbers, local, places, count - 1);
    }
}

proof fn outside_a_place(
    flows: Seq<(PlaceModel, DynModel)>,
    place: PlaceModel,
    count: int,
    at: int,
)
    requires
        0 <= count <= flows.len(),
        0 <= at < flows_outside(flows, place, count).len(),
    ensures
        !is_prefix(place, flows_outside(flows, place, count)[at].0),
    decreases count,
{
    if count > 0 {
        let before = flows_outside(flows, place, count - 1);
        if at < before.len() {
            outside_a_place(flows, place, count - 1, at);
        }
    }
}

proof fn locals_hold_themselves(local: usize)
    ensures
        is_prefix(whole(local), whole(local)),
{
    assert(whole(local).projection.take(0) =~= Seq::empty());
}

proof fn others_stay_outside(
    flows: Seq<(PlaceModel, DynModel)>,
    place: PlaceModel,
    count: int,
    other: PlaceModel,
)
    requires
        0 <= count <= flows.len(),
        !is_prefix(place, other),
    ensures
        value_of(flows_outside(flows, place, count), other) == value_of(flows.take(count), other),
    decreases count,
{
    if count > 0 {
        others_stay_outside(flows, place, count - 1, other);
        let before = flows_outside(flows, place, count - 1);
        let after = flows_outside(flows, place, count);
        let shorter = flows.take(count - 1);
        let longer = flows.take(count);
        assert(longer =~= shorter.push(flows[count - 1]));
        one_more_entry(shorter, flows[count - 1], other);
        if is_prefix(place, flows[count - 1].0) {
            assert(flows[count - 1].0 != other);
        } else {
            one_more_entry(before, flows[count - 1], other);
        }
    } else {
        assert(flows.take(0) =~= Seq::empty());
    }
}

proof fn one_more_entry<K, V>(entries: Seq<(K, V)>, entry: (K, V), key: K)
    ensures
        value_of(entries.push(entry), key) == (match value_of(entries, key) {
            Some(value) => Some(value),
            None => if entry.0 == key {
                Some(entry.1)
            } else {
                None
            },
        }),
{
    let after = entries.push(entry);
    first_under_a_key(entries, key, 0);
    first_under_a_key(after, key, 0);
    match place_of(entries, key, 0) {
        Some(place) => {
            assert(after[place] == entries[place]);
            let found = place_of(after, key, 0)->0;
            if found < place {
                assert(after[found] == entries[found]);
            }
        },
        None => {
            match place_of(after, key, 0) {
                Some(found) => {
                    if found < entries.len() {
                        assert(after[found] == entries[found]);
                    }
                },
                None => {
                    assert(after[entries.len() as int] == entry);
                },
            }
        },
    }
}

/// A write to a local that stands for itself: what is behind it, and what is
/// behind others.
proof fn locals_are_written(state: StateModel, local: usize, flow: DynModel)
    requires
        is_unaliased(state, local),
    ensures
        written(state, whole(local), flow) == target_written(state, whole(local), flow, false),
        value_of(written(state, whole(local), flow).flows, whole(local)) == (if is_nothing(flow) {
            None
        } else {
            Some(flow)
        }),
        written(state, whole(local), flow).aliases == state.aliases,
        written(state, whole(local), flow).uncertain_aliases == state.uncertain_aliases,
        forall|at: int|
            0 <= at < written(state, whole(local), flow).flows.len() && is_nothing(flow)
                ==> !is_prefix(
                whole(local),
                (#[trigger] written(state, whole(local), flow).flows[at]).0,
            ),
        forall|other: PlaceModel|
            other.local != local ==> #[trigger] value_of(
                written(state, whole(local), flow).flows,
                other,
            ) == value_of(state.flows, other),
{
    let place = whole(local);
    unaliased_locals_stand_alone(state, local);
    let aliases = alias_places(state, place);
    assert(aliases =~= seq![place]);
    assert(distinct(aliases, 0) =~= Seq::empty());
    assert(!distinct(aliases, 0).contains(place));
    let targets = distinct(aliases, 1);
    assert(targets =~= seq![place]);
    assert(targets_written(state, targets, flow, false, 0) == state);
    assert(targets_written(state, targets, flow, false, 1) == target_written(
        state,
        place,
        flow,
        false,
    ));
    let places = flow_places(state.flows) + state.known;
    locals_mean_themselves(state.constant_indices, local, places, places.len() as int);
    assert(concretized(state, place) == place);
    assert(runtime_index(place.projection, 0) is None);
    let rest = cleared(state, place);
    let after = written(state, place, flow);
    locals_hold_themselves(local);
    assert forall|at: int| 0 <= at < rest.flows.len() implies !is_prefix(
        place,
        (#[trigger] rest.flows[at]).0,
    ) by {
        outside_a_place(state.flows, place, state.flows.len() as int, at);
    }
    assert forall|at: int| 0 <= at < rest.flows.len() implies (#[trigger] rest.flows[at]).0
        != place by {
        assert(!is_prefix(place, rest.flows[at].0));
    }
    nothing_under_a_key(rest.flows, place, 0);
    bound_values_are_found(rest.flows, place, flow, place);
    assert forall|other: PlaceModel| other.local != local implies #[trigger] value_of(
        after.flows,
        other,
    ) == value_of(state.flows, other) by {
        others_stay_outside(state.flows, place, state.flows.len() as int, other);
        assert(state.flows.take(state.flows.len() as int) =~= state.flows);
        bound_values_are_found(rest.flows, place, flow, other);
    }
}

proof fn nothing_behind_parts(flows: Seq<(PlaceModel, DynModel)>, local: usize, count: int)
    requires
        count <= flows.len(),
        forall|at: int|
            0 <= at < flows.len() ==> !is_prefix(whole(local), (#[trigger] flows[at]).0),
    ensures
        parts_flow(flows, whole(local), count) == nothing(),
    decreases count,
{
    if count > 0 {
        nothing_behind_parts(flows, local, count - 1);
    }
}

proof fn locals_are_not_indexed(state: StateModel, local: usize, count: int)
    ensures
        indexed_flow(state, whole(local), count) == (false, nothing()),
    decreases count,
{
    if count > 0 {
        locals_are_not_indexed(state, local, count - 1);
    }
}

/// What is written to a local is read back from it, if the local stands for
/// nothing else; and what stands behind another local stays.
pub proof fn writes_are_read_back(
    state: StateModel,
    local: usize,
    flow: DynModel,
    other: usize,
    stays: DynModel,
)
    requires
        is_unaliased(state, local),
        other != local,
        value_of(state.flows, whole(other)) == Some(stays),
    ensures
        flow_at(written(state, whole(local), flow), whole(local)) == flow,
        flow_at(written(state, whole(local), flow), whole(other)) == stays,
{
    values_are_read_back(state, local, flow);
    locals_are_written(state, local, flow);
}

proof fn values_are_read_back(state: StateModel, local: usize, flow: DynModel)
    requires
        is_unaliased(state, local),
    ensures
        flow_at(written(state, whole(local), flow), whole(local)) == flow,
{
    let place = whole(local);
    let after = written(state, place, flow);
    locals_are_written(state, local, flow);
    if is_nothing(flow) {
        assert(is_unaliased(after, local));
        unaliased_locals_stand_alone(after, local);
        let targets = alias_places(after, place);
        assert(targets =~= seq![place]);
        assert(aliased_flow(after, place, targets, 0) == nothing());
        assert(aliased_flow(after, place, targets, 1) == nothing());
        locals_are_not_indexed(after, local, after.flows.len() as int);
        nothing_behind_parts(after.flows, local, after.flows.len() as int);
        assert(flow =~= nothing());
    }
}

proof fn plain_sources_leave_no_alias(state: StateModel, local: usize, value: RvalueModel)
    requires
        is_unaliased(state, local),
        !(value is Ref),
        match crate::rust::dataflow::moved_place(value) {
            Some(source) => value_of(state.aliases, source) is None,
            None => true,
        },
    ensures
        ({
            let after = with_new_alias(
                with_known_number(state, whole(local), value),
                whole(local),
                value,
            );
            &&& is_unaliased(after, local)
            &&& after.flows == state.flows
            &&& after.aliases == state.aliases
        }),
{
    nothing_under_a_key(state.aliases, whole(local), 0);
    let numbered = with_known_number(state, whole(local), value);
    let uncertain = state.uncertain_aliases;
    items_are_left_out(uncertain, whole(local), uncertain.len() as int);
}

proof fn items_are_left_out(items: Seq<PlaceModel>, item: PlaceModel, count: int)
    requires
        0 <= count <= items.len(),
    ensures
        !without_item(items, item, count).contains(item),
    decreases count,
{
    if count > 0 {
        items_are_left_out(items, item, count - 1);
        crate::lists::pushed_items(
            without_item(items, item, count - 1),
            items[count - 1],
            item,
        );
    }
}

/// A local that a value of a known type was turned into a dynamic one for holds
/// that type: whatever stood behind it before, that type and no other.
pub proof fn dynamic_values_are_of_their_types(
    run: RunModel,
    assignment: AssignmentModel,
    local: usize,
    operand: OperandModel,
    concrete: ConcreteModel,
    id: usize,
)
    requires
        assignment.destination == whole(local),
        assignment.value == (RvalueModel::Unsize { operand, concrete: Some(concrete) }),
        is_unaliased(run.state, local),
        match operand.value {
            OperandValueModel::Place(source) => value_of(run.state.aliases, source) is None,
            _ => true,
        },
    ensures
        has_type(flow_at(after_assignment(run, assignment).state, whole(local)), id) == (id
            == concrete.id),
        flow_at(
            after_assignment(run, assignment).state,
            whole(local),
        ).unresolved_reasons.len() == 0,
{
    let value = assignment.value;
    plain_sources_leave_no_alias(run.state, local, value);
    let aliased = with_new_alias(
        with_known_number(run.state, whole(local), value),
        whole(local),
        value,
    );
    let flow = rvalue_flow(aliased, value, assignment.ty);
    assert(flow.concrete =~= seq![concrete]);
    values_are_read_back(aliased, local, flow);
    assert(seq![concrete][0] == concrete);
    let result = flow_at(after_assignment(run, assignment).state, whole(local));
    assert(result.concrete[0].id == concrete.id);
}

/// A local that another local was moved to holds what stood behind that one.
pub proof fn moved_values_keep_what_is_behind(
    run: RunModel,
    assignment: AssignmentModel,
    local: usize,
    operand: OperandModel,
    source: usize,
    flow: DynModel,
)
    requires
        assignment.destination == whole(local),
        assignment.value == RvalueModel::Use(operand),
        operand.value == OperandValueModel::Place(whole(source)),
        is_unaliased(run.state, local),
        value_of(run.state.aliases, whole(source)) is None,
        value_of(run.state.flows, whole(source)) == Some(flow),
        !is_nothing(flow),
    ensures
        flow_at(after_assignment(run, assignment).state, whole(local)) == flow,
        source != local ==> flow_at(after_assignment(run, assignment).state, whole(source))
            == flow,
{
    let value = assignment.value;
    plain_sources_leave_no_alias(run.state, local, value);
    let aliased = with_new_alias(
        with_known_number(run.state, whole(local), value),
        whole(local),
        value,
    );
    assert(operand_flow(aliased, operand) == flow);
    values_are_read_back(aliased, local, flow);
    if source != local {
        writes_are_read_back(aliased, local, flow, source, flow);
    }
}

/// A dynamic value made of a reference to a local is known through the local:
/// what is read from it is of the type that it was made of.
pub proof fn dynamic_references_are_of_their_types(
    run: RunModel,
    assignment: AssignmentModel,
    local: usize,
    operand: OperandModel,
    source: PlaceModel,
    target: usize,
    concrete: ConcreteModel,
)
    requires
        assignment.destination == whole(local),
        assignment.value == (RvalueModel::Unsize { operand, concrete: Some(concrete) }),
        operand.value == OperandValueModel::Place(source),
        value_of(run.state.aliases, source) == Some(seq![whole(target)]),
        target != local,
        is_unaliased(run.state, target),
        !run.state.uncertain_aliases.contains(source),
        !run.state.uncertain_aliases.contains(whole(source.local)),
        value_of(run.state.flows, whole(local)) is None,
    ensures
        has_type(
            flow_at(after_assignment(run, assignment).state, whole(local)),
            concrete.id,
        ),
        has_type(
            flow_at(after_assignment(run, assignment).state, whole(target)),
            concrete.id,
        ),
{
    let value = assignment.value;
    let numbered = with_known_number(run.state, whole(local), value);
    let aliased = with_new_alias(numbered, whole(local), value);
    let targets = seq![whole(target)];
    assert(aliased == with_alias(numbered, whole(local), targets, false));
    bound_values_are_found(numbered.aliases, whole(local), targets, whole(local));
    let flow = rvalue_flow(aliased, value, assignment.ty);
    assert(flow.concrete =~= seq![concrete]);
    assert(flow.concrete[0].id == concrete.id);
    let uncertain = numbered.uncertain_aliases;
    items_are_only_left_out(uncertain, whole(local), uncertain.len() as int, whole(target));
    assert(is_unaliased(aliased, target)) by {
        assert forall|at: int| 0 <= at < aliased.aliases.len() implies (
        #[trigger] aliased.aliases[at]).0 != whole(target) by {
            first_under_a_key(numbered.aliases, whole(local), 0);
            match place_of(numbered.aliases, whole(local), 0) {
                Some(found) => {
                    if at != found {
                        assert(aliased.aliases[at] == numbered.aliases[at]);
                    }
                },
                None => {
                    if at < numbered.aliases.len() {
                        assert(aliased.aliases[at] == numbered.aliases[at]);
                    }
                },
            }
        }
    }
    locals_are_written(aliased, target, flow);
    let aliases = alias_places(aliased, whole(local));
    assert(aliases == targets);
    assert(distinct(targets, 0) =~= Seq::empty());
    assert(!distinct(targets, 0).contains(whole(target)));
    assert(distinct(targets, 1) =~= targets);
    let after = written(aliased, whole(local), flow);
    assert(targets_written(aliased, targets, flow, false, 0) == aliased);
    assert(targets_written(aliased, targets, flow, false, 1) == target_written(
        aliased,
        whole(target),
        flow,
        false,
    ));
    assert(after == written(aliased, whole(target), flow));
    assert(value_of(after.flows, whole(target)) == Some(flow));
    assert(value_of(after.flows, whole(local)) is None);
    assert(alias_places(after, whole(local)) == targets);
    assert(aliased_flow(after, whole(local), targets, 0) == nothing());
    let read = aliased_flow(after, whole(local), targets, 1);
    assert(read == joint(nothing(), plain_flow(after, whole(target))));
    joint_flows_hold_each(nothing(), flow);
    assert(has_type(flow, concrete.id));
    assert(has_type(read, concrete.id));
}

proof fn items_are_only_left_out(
    items: Seq<PlaceModel>,
    item: PlaceModel,
    count: int,
    other: PlaceModel,
)
    requires
        0 <= count <= items.len(),
    ensures
        without_item(items, item, count).contains(other) ==> items.contains(other),
    decreases count,
{
    if count > 0 {
        items_are_only_left_out(items, item, count - 1, other);
        crate::lists::pushed_items(
            without_item(items, item, count - 1),
            items[count - 1],
            other,
        );
    }
}

} // verus!
