//! What is known where the paths through a body meet: what is known on any of
//! them.
use crate::lists::{bound, place_of, pushed_items, value_of};
use crate::model::UnresolvedReason;
use crate::rust::analysis::{
    aliases_joined, arrived, flows_joined, places_joined, shared_numbers, states_joined,
};
use crate::rust::flow_laws::joint_flows_hold_both;
use crate::rust::mir::PlaceModel;
use crate::rust::provenance::{
    has_concrete, joint, known_number, merged_at, nothing, DynModel, StateModel,
};
use vstd::prelude::*;

verus! {

/// Whether a type stands behind a value.
pub open spec fn has_type(flow: DynModel, id: usize) -> bool {
    exists|place: int| 0 <= place < flow.concrete.len() && (#[trigger] flow.concrete[place]).id
        == id
}

/// Whether a type stands behind a place.
pub open spec fn type_behind(state: StateModel, place: PlaceModel, id: usize) -> bool {
    exists|at: int|
        0 <= at < state.flows.len() && (#[trigger] state.flows[at]).0 == place && has_type(
            state.flows[at].1,
            id,
        )
}

/// Whether a parameter stands behind a place.
pub open spec fn parameter_behind(state: StateModel, place: PlaceModel, parameter: usize) -> bool {
    exists|at: int|
        0 <= at < state.flows.len() && (#[trigger] state.flows[at]).0 == place
            && state.flows[at].1.parameters.contains(parameter)
}

/// Whether a reason stands behind a place why what is there is not known.
pub open spec fn reason_behind(
    state: StateModel,
    place: PlaceModel,
    reason: UnresolvedReason,
) -> bool {
    exists|at: int|
        0 <= at < state.flows.len() && (#[trigger] state.flows[at]).0 == place
            && state.flows[at].1.unresolved_reasons.contains(reason)
}

/// Whether a place leads to another one.
pub open spec fn leads_to(state: StateModel, place: PlaceModel, target: PlaceModel) -> bool {
    exists|at: int|
        0 <= at < state.aliases.len() && (#[trigger] state.aliases[at]).0 == place
            && state.aliases[at].1.contains(target)
}

/// Whether a state allows for all that another one allows for: each type,
/// parameter and reason behind each place, each place that another one leads
/// to, each place that was written to; and whether it takes no number for known
/// that the other does not.
pub open spec fn allows_for(more: StateModel, less: StateModel) -> bool {
    &&& forall|place: PlaceModel, id: usize| #[trigger]
        type_behind(less, place, id) ==> type_behind(more, place, id)
    &&& forall|place: PlaceModel, parameter: usize| #[trigger]
        parameter_behind(less, place, parameter) ==> parameter_behind(more, place, parameter)
    &&& forall|place: PlaceModel, reason: UnresolvedReason| #[trigger]
        reason_behind(less, place, reason) ==> reason_behind(more, place, reason)
    &&& forall|place: PlaceModel, target: PlaceModel| #[trigger]
        leads_to(less, place, target) ==> leads_to(more, place, target)
    &&& forall|place: PlaceModel| #[trigger]
        less.uncertain_aliases.contains(place) ==> more.uncertain_aliases.contains(place)
    &&& forall|place: PlaceModel| #[trigger]
        less.known.contains(place) ==> more.known.contains(place)
    &&& forall|number: (usize, u64)| #[trigger]
        more.constant_indices.contains(number) ==> less.constant_indices.contains(number)
}

/// A state allows for itself.
pub proof fn states_allow_for_themselves(state: StateModel)
    ensures
        allows_for(state, state),
{
}

/// What allows for a state allows for all that the state allows for.
pub proof fn allowing_is_transitive(most: StateModel, more: StateModel, less: StateModel)
    requires
        allows_for(most, more),
        allows_for(more, less),
    ensures
        allows_for(most, less),
{
}

/// Whether a test of values holds behind a place.
spec fn holds_behind(
    flows: Seq<(PlaceModel, DynModel)>,
    place: PlaceModel,
    test: spec_fn(DynModel) -> bool,
) -> bool {
    exists|at: int| 0 <= at < flows.len() && (#[trigger] flows[at]).0 == place && test(flows[at].1)
}

/// Whether a test holds of joint values exactly where it holds of one of them.
spec fn is_additive(test: spec_fn(DynModel) -> bool) -> bool {
    &&& forall|left: DynModel, right: DynModel| #[trigger]
        test(joint(left, right)) == (test(left) || test(right))
    &&& !test(nothing())
}

proof fn first_place<K, V>(entries: Seq<(K, V)>, key: K, index: int)
    requires
        0 <= index,
    ensures
        match place_of(entries, key, index) {
            Some(place) => index <= place < entries.len() && entries[place].0 == key,
            None => forall|other: int|
                index <= other < entries.len() ==> (#[trigger] entries[other]).0 != key,
        },
    decreases entries.len() - index,
{
    if index < entries.len() && entries[index].0 != key {
        first_place(entries, key, index + 1);
    }
}

/// A bound value stands under its key.
pub proof fn bound_is_there<K, V>(entries: Seq<(K, V)>, key: K, value: V)
    ensures
        exists|at: int|
            0 <= at < bound(entries, key, value).len() && #[trigger] bound(entries, key, value)[at]
                == (key, value),
{
    first_place(entries, key, 0);
    let after = bound(entries, key, value);
    match place_of(entries, key, 0) {
        Some(found) => {
            assert(after[found] == (key, value));
        },
        None => {
            assert(after[entries.len() as int] == (key, value));
        },
    }
}

/// What stands under another key stays.
pub proof fn bound_keeps_others<K, V>(entries: Seq<(K, V)>, key: K, value: V, at: int)
    requires
        0 <= at < entries.len(),
        entries[at].0 != key,
    ensures
        at < bound(entries, key, value).len(),
        bound(entries, key, value)[at] == entries[at],
{
    first_place(entries, key, 0);
}

proof fn merging_adds(
    flows: Seq<(PlaceModel, DynModel)>,
    place: PlaceModel,
    flow: DynModel,
    other: PlaceModel,
    test: spec_fn(DynModel) -> bool,
)
    requires
        is_additive(test),
    ensures
        holds_behind(merged_at(flows, place, flow), other, test) == (holds_behind(
            flows,
            other,
            test,
        ) || (other == place && test(flow))),
{
    first_place(flows, place, 0);
    let after = merged_at(flows, place, flow);
    match place_of(flows, place, 0) {
        Some(found) => {
            let old_flow = flows[found].1;
            assert(after[found] == (place, joint(old_flow, flow)));
            assert(test(joint(old_flow, flow)) == (test(old_flow) || test(flow)));
            if holds_behind(flows, other, test) {
                let at = choose|at: int|
                    0 <= at < flows.len() && (#[trigger] flows[at]).0 == other && test(flows[at].1);
                assert(after[at].0 == other && test(after[at].1));
            }
            if other == place && test(flow) {
                assert(after[found].0 == other && test(after[found].1));
            }
            if holds_behind(after, other, test) {
                let at = choose|at: int|
                    0 <= at < after.len() && (#[trigger] after[at]).0 == other && test(after[at].1);
                if at != found {
                    assert(flows[at].0 == other && test(flows[at].1));
                } else if test(old_flow) {
                    assert(flows[found].0 == other && test(flows[found].1));
                }
            }
        },
        None => {
            let last = flows.len() as int;
            assert(after[last] == (place, joint(nothing(), flow)));
            assert(test(joint(nothing(), flow)) == (test(nothing()) || test(flow)));
            if holds_behind(flows, other, test) {
                let at = choose|at: int|
                    0 <= at < flows.len() && (#[trigger] flows[at]).0 == other && test(flows[at].1);
                assert(after[at].0 == other && test(after[at].1));
            }
            if holds_behind(after, other, test) {
                let at = choose|at: int|
                    0 <= at < after.len() && (#[trigger] after[at]).0 == other && test(after[at].1);
                if at < last {
                    assert(flows[at].0 == other && test(flows[at].1));
                }
            }
        },
    }
}

proof fn joining_adds(
    flows: Seq<(PlaceModel, DynModel)>,
    more: Seq<(PlaceModel, DynModel)>,
    count: int,
    other: PlaceModel,
    test: spec_fn(DynModel) -> bool,
)
    requires
        is_additive(test),
        0 <= count <= more.len(),
    ensures
        holds_behind(flows_joined(flows, more, count).0, other, test) == (holds_behind(
            flows,
            other,
            test,
        ) || holds_behind(more.take(count), other, test)),
        !flows_joined(flows, more, count).1 ==> (holds_behind(more.take(count), other, test)
            ==> holds_behind(flows, other, test)),
    decreases count,
{
    if count > 0 {
        joining_adds(flows, more, count - 1, other, test);
        let before = flows_joined(flows, more, count - 1).0;
        let (place, flow) = more[count - 1];
        merging_adds(before, place, flow, other, test);
        let shorter = more.take(count - 1);
        let longer = more.take(count);
        if holds_behind(shorter, other, test) {
            let at = choose|at: int|
                0 <= at < shorter.len() && (#[trigger] shorter[at]).0 == other && test(
                    shorter[at].1,
                );
            assert(longer[at].0 == other && test(longer[at].1));
        }
        if other == place && test(flow) {
            assert(longer[count - 1].0 == other && test(longer[count - 1].1));
        }
        if holds_behind(longer, other, test) {
            let at = choose|at: int|
                0 <= at < longer.len() && (#[trigger] longer[at]).0 == other && test(longer[at].1);
            if at < count - 1 {
                assert(shorter[at].0 == other && test(shorter[at].1));
            }
        }
        first_place(before, place, 0);
        let old_flow = match value_of(before, place) {
            Some(old_flow) => old_flow,
            None => nothing(),
        };
        if joint(old_flow, flow) == old_flow && other == place && test(flow) {
            assert(test(joint(old_flow, flow)));
            let found = place_of(before, place, 0)->0;
            assert(before[found].0 == other && test(before[found].1));
        }
    } else {
        assert(more.take(0) =~= Seq::empty());
    }
}

proof fn tests_are_additive(id: usize, parameter: usize, reason: UnresolvedReason)
    ensures
        is_additive(|flow: DynModel| has_type(flow, id)),
        is_additive(|flow: DynModel| flow.parameters.contains(parameter)),
        is_additive(|flow: DynModel| flow.unresolved_reasons.contains(reason)),
{
    let types = |flow: DynModel| has_type(flow, id);
    let parameters = |flow: DynModel| flow.parameters.contains(parameter);
    let reasons = |flow: DynModel| flow.unresolved_reasons.contains(reason);
    assert forall|left: DynModel, right: DynModel| #[trigger]
        types(joint(left, right)) == (types(left) || types(right)) by {
        joint_flows_hold_both(left, right, id, parameter, reason);
        assert(has_type(left, id) == has_concrete(left.concrete, id));
        assert(has_type(right, id) == has_concrete(right.concrete, id));
        assert(has_type(joint(left, right), id) == has_concrete(joint(left, right).concrete, id));
    }
    assert forall|left: DynModel, right: DynModel| #[trigger]
        parameters(joint(left, right)) == (parameters(left) || parameters(right)) by {
        joint_flows_hold_both(left, right, id, parameter, reason);
    }
    assert forall|left: DynModel, right: DynModel| #[trigger]
        reasons(joint(left, right)) == (reasons(left) || reasons(right)) by {
        joint_flows_hold_both(left, right, id, parameter, reason);
    }
}

proof fn places_are_those_of_both(
    places: Seq<PlaceModel>,
    more: Seq<PlaceModel>,
    count: int,
    place: PlaceModel,
)
    requires
        0 <= count <= more.len(),
    ensures
        places_joined(places, more, count).0.contains(place) == (places.contains(place)
            || more.take(count).contains(place)),
        !places_joined(places, more, count).1 ==> (more.take(count).contains(place)
            ==> places.contains(place)),
    decreases count,
{
    if count > 0 {
        places_are_those_of_both(places, more, count - 1, place);
        let before = places_joined(places, more, count - 1).0;
        pushed_items(before, more[count - 1], place);
        let shorter = more.take(count - 1);
        assert(more.take(count) =~= shorter.push(more[count - 1]));
        pushed_items(shorter, more[count - 1], place);
    } else {
        assert(more.take(0) =~= Seq::empty());
    }
}

spec fn alias_leads(
    aliases: Seq<(PlaceModel, Seq<PlaceModel>)>,
    place: PlaceModel,
    target: PlaceModel,
) -> bool {
    exists|at: int|
        0 <= at < aliases.len() && (#[trigger] aliases[at]).0 == place && aliases[at].1.contains(
            target,
        )
}

proof fn binding_adds(
    aliases: Seq<(PlaceModel, Seq<PlaceModel>)>,
    place: PlaceModel,
    targets: Seq<PlaceModel>,
    other: PlaceModel,
    target: PlaceModel,
)
    ensures
        ({
            let old_targets = match value_of(aliases, place) {
                Some(old_targets) => old_targets,
                None => Seq::empty(),
            };
            let (new_targets, new) = places_joined(old_targets, targets, targets.len() as int);
            &&& alias_leads(bound(aliases, place, new_targets), other, target) == (alias_leads(
                aliases,
                other,
                target,
            ) || (other == place && targets.contains(target)))
            &&& !new && other == place && targets.contains(target) ==> alias_leads(
                aliases,
                other,
                target,
            )
        }),
{
    let old_targets = match value_of(aliases, place) {
        Some(old_targets) => old_targets,
        None => Seq::empty(),
    };
    let (new_targets, new) = places_joined(old_targets, targets, targets.len() as int);
    places_are_those_of_both(old_targets, targets, targets.len() as int, target);
    assert(targets.take(targets.len() as int) =~= targets);
    first_place(aliases, place, 0);
    let after = bound(aliases, place, new_targets);
    let found = match place_of(aliases, place, 0) {
        Some(found) => found,
        None => aliases.len() as int,
    };
    assert(after[found] == (place, new_targets));
    if alias_leads(aliases, other, target) {
        let at = choose|at: int|
            0 <= at < aliases.len() && (#[trigger] aliases[at]).0 == other
                && aliases[at].1.contains(target);
        assert(after[at].0 == other && after[at].1.contains(target));
    }
    if other == place && targets.contains(target) {
        assert(after[found].0 == other && after[found].1.contains(target));
        if !new {
            assert(old_targets.contains(target));
            assert(aliases[found].0 == other && aliases[found].1.contains(target));
        }
    }
    if alias_leads(after, other, target) {
        let at = choose|at: int|
            0 <= at < after.len() && (#[trigger] after[at]).0 == other && after[at].1.contains(
                target,
            );
        if at != found {
            assert(aliases[at].0 == other && aliases[at].1.contains(target));
        } else if old_targets.contains(target) {
            assert(aliases[found].0 == other && aliases[found].1.contains(target));
        }
    }
}

proof fn aliases_are_those_of_both(
    aliases: Seq<(PlaceModel, Seq<PlaceModel>)>,
    more: Seq<(PlaceModel, Seq<PlaceModel>)>,
    count: int,
    place: PlaceModel,
    target: PlaceModel,
)
    requires
        0 <= count <= more.len(),
    ensures
        alias_leads(aliases_joined(aliases, more, count).0, place, target) == (alias_leads(
            aliases,
            place,
            target,
        ) || alias_leads(more.take(count), place, target)),
        !aliases_joined(aliases, more, count).1 ==> (alias_leads(more.take(count), place, target)
            ==> alias_leads(aliases, place, target)),
    decreases count,
{
    if count > 0 {
        aliases_are_those_of_both(aliases, more, count - 1, place, target);
        let before = aliases_joined(aliases, more, count - 1).0;
        let (key, targets) = more[count - 1];
        binding_adds(before, key, targets, place, target);
        let shorter = more.take(count - 1);
        let longer = more.take(count);
        if alias_leads(shorter, place, target) {
            let at = choose|at: int|
                0 <= at < shorter.len() && (#[trigger] shorter[at]).0 == place
                    && shorter[at].1.contains(target);
            assert(longer[at].0 == place && longer[at].1.contains(target));
        }
        if key == place && targets.contains(target) {
            assert(longer[count - 1].0 == place && longer[count - 1].1.contains(target));
        }
        if alias_leads(longer, place, target) {
            let at = choose|at: int|
                0 <= at < longer.len() && (#[trigger] longer[at]).0 == place
                    && longer[at].1.contains(target);
            if at < count - 1 {
                assert(shorter[at].0 == place && shorter[at].1.contains(target));
            }
        }
    } else {
        assert(more.take(0) =~= Seq::empty());
    }
}

proof fn numbers_are_those_of_each(
    left: Seq<(usize, u64)>,
    right: Seq<(usize, u64)>,
    count: int,
    number: (usize, u64),
)
    requires
        0 <= count <= left.len(),
    ensures
        shared_numbers(left, right, count).contains(number) == (left.take(count).contains(number)
            && known_number(right, number.0) == Some(number.1)),
        shared_numbers(left, right, count).len() <= count,
        shared_numbers(left, right, count).len() == count && left.take(count).contains(number)
            ==> known_number(right, number.0) == Some(number.1),
        known_number(right, number.0) == Some(number.1) ==> right.contains(number),
    decreases count,
{
    first_place(right, number.0, 0);
    if known_number(right, number.0) == Some(number.1) {
        let found = place_of(right, number.0, 0)->0;
        assert(right[found] == number);
    }
    if count > 0 {
        numbers_are_those_of_each(left, right, count - 1, number);
        let shorter = left.take(count - 1);
        assert(left.take(count) =~= shorter.push(left[count - 1]));
        pushed_items(shorter, left[count - 1], number);
        pushed_items(shared_numbers(left, right, count - 1), left[count - 1], number);
    }
}

/// Where two states meet, exactly those types, parameters and reasons stand
/// behind a place that stand behind it in one of them; a place leads where it
/// leads in one of them.
pub proof fn joint_states_hold_both(
    left: StateModel,
    right: StateModel,
    place: PlaceModel,
    id: usize,
    parameter: usize,
    reason: UnresolvedReason,
    target: PlaceModel,
)
    ensures
        arrived(Some(left), right).0 is Some,
        ({
            let after = arrived(Some(left), right).0->0;
            &&& type_behind(after, place, id) == (type_behind(left, place, id) || type_behind(
                right,
                place,
                id,
            ))
            &&& parameter_behind(after, place, parameter) == (parameter_behind(
                left,
                place,
                parameter,
            ) || parameter_behind(right, place, parameter))
            &&& reason_behind(after, place, reason) == (reason_behind(left, place, reason)
                || reason_behind(right, place, reason))
            &&& leads_to(after, place, target) == (leads_to(left, place, target) || leads_to(
                right,
                place,
                target,
            ))
            &&& after.uncertain_aliases.contains(place) == (left.uncertain_aliases.contains(place)
                || right.uncertain_aliases.contains(place))
            &&& after.known.contains(place) == (left.known.contains(place)
                || right.known.contains(place))
        }),
        !arrived(Some(left), right).1 ==> {
            &&& type_behind(right, place, id) ==> type_behind(left, place, id)
            &&& parameter_behind(right, place, parameter) ==> parameter_behind(
                left,
                place,
                parameter,
            )
            &&& reason_behind(right, place, reason) ==> reason_behind(left, place, reason)
            &&& leads_to(right, place, target) ==> leads_to(left, place, target)
            &&& right.uncertain_aliases.contains(place) ==> left.uncertain_aliases.contains(place)
            &&& right.known.contains(place) ==> left.known.contains(place)
        },
{
    let after = states_joined(left, right).0;
    let types = |flow: DynModel| has_type(flow, id);
    let parameters = |flow: DynModel| flow.parameters.contains(parameter);
    let reasons = |flow: DynModel| flow.unresolved_reasons.contains(reason);
    tests_are_additive(id, parameter, reason);
    let count = right.flows.len() as int;
    joining_adds(left.flows, right.flows, count, place, types);
    joining_adds(left.flows, right.flows, count, place, parameters);
    joining_adds(left.flows, right.flows, count, place, reasons);
    assert(right.flows.take(count) =~= right.flows);
    assert(holds_behind(left.flows, place, types) == type_behind(left, place, id));
    assert(holds_behind(right.flows, place, types) == type_behind(right, place, id));
    assert(holds_behind(after.flows, place, types) == type_behind(after, place, id));
    assert(holds_behind(left.flows, place, parameters) == parameter_behind(left, place, parameter));
    assert(holds_behind(right.flows, place, parameters) == parameter_behind(
        right,
        place,
        parameter,
    ));
    assert(holds_behind(after.flows, place, parameters) == parameter_behind(
        after,
        place,
        parameter,
    ));
    assert(holds_behind(left.flows, place, reasons) == reason_behind(left, place, reason));
    assert(holds_behind(right.flows, place, reasons) == reason_behind(right, place, reason));
    assert(holds_behind(after.flows, place, reasons) == reason_behind(after, place, reason));
    aliases_are_those_of_both(
        left.aliases,
        right.aliases,
        right.aliases.len() as int,
        place,
        target,
    );
    assert(right.aliases.take(right.aliases.len() as int) =~= right.aliases);
    assert(alias_leads(left.aliases, place, target) == leads_to(left, place, target));
    assert(alias_leads(right.aliases, place, target) == leads_to(right, place, target));
    assert(alias_leads(after.aliases, place, target) == leads_to(after, place, target));
    places_are_those_of_both(
        left.uncertain_aliases,
        right.uncertain_aliases,
        right.uncertain_aliases.len() as int,
        place,
    );
    assert(right.uncertain_aliases.take(right.uncertain_aliases.len() as int)
        =~= right.uncertain_aliases);
    places_are_those_of_both(left.known, right.known, right.known.len() as int, place);
    assert(right.known.take(right.known.len() as int) =~= right.known);
}

/// What is known where a block is entered allows for what was known there, and
/// for each state that comes in. Where nothing is said to have changed, what
/// was known there allowed for it before.
pub proof fn arrivals_allow_for_every_state(arrival: Option<StateModel>, state: StateModel)
    ensures
        arrived(arrival, state).0 is Some,
        allows_for(arrived(arrival, state).0->0, state),
        arrival is Some ==> allows_for(arrived(arrival, state).0->0, arrival->0),
        !arrived(arrival, state).1 ==> arrival is Some && allows_for(arrival->0, state)
            && allows_for(arrival->0, arrived(arrival, state).0->0),
{
    match arrival {
        None => {
            states_allow_for_themselves(state);
        },
        Some(before) => {
            let after = arrived(arrival, state).0->0;
            let changed = arrived(arrival, state).1;
            let none = UnresolvedReason::AnalysisLimit;
            assert forall|place: PlaceModel, id: usize| #[trigger]
                type_behind(after, place, id) == (type_behind(before, place, id) || type_behind(
                    state,
                    place,
                    id,
                )) && (!changed && type_behind(state, place, id) ==> type_behind(
                    before,
                    place,
                    id,
                )) by {
                joint_states_hold_both(before, state, place, id, 0, none, place);
            }
            assert forall|place: PlaceModel, parameter: usize| #[trigger]
                parameter_behind(after, place, parameter) == (parameter_behind(
                    before,
                    place,
                    parameter,
                ) || parameter_behind(state, place, parameter)) && (!changed && parameter_behind(
                    state,
                    place,
                    parameter,
                ) ==> parameter_behind(before, place, parameter)) by {
                joint_states_hold_both(before, state, place, 0, parameter, none, place);
            }
            assert forall|place: PlaceModel, reason: UnresolvedReason| #[trigger]
                reason_behind(after, place, reason) == (reason_behind(before, place, reason)
                    || reason_behind(state, place, reason)) && (!changed && reason_behind(
                    state,
                    place,
                    reason,
                ) ==> reason_behind(before, place, reason)) by {
                joint_states_hold_both(before, state, place, 0, 0, reason, place);
            }
            assert forall|place: PlaceModel, target: PlaceModel| #[trigger]
                leads_to(after, place, target) == (leads_to(before, place, target) || leads_to(
                    state,
                    place,
                    target,
                )) && (!changed && leads_to(state, place, target) ==> leads_to(
                    before,
                    place,
                    target,
                )) by {
                joint_states_hold_both(before, state, place, 0, 0, none, target);
            }
            assert forall|place: PlaceModel| #[trigger]
                after.uncertain_aliases.contains(place) == (before.uncertain_aliases.contains(
                    place,
                ) || state.uncertain_aliases.contains(place)) && (!changed
                    && state.uncertain_aliases.contains(place)
                    ==> before.uncertain_aliases.contains(place)) by {
                joint_states_hold_both(before, state, place, 0, 0, none, place);
            }
            assert forall|place: PlaceModel| #[trigger]
                after.known.contains(place) == (before.known.contains(place)
                    || state.known.contains(place)) && (!changed && state.known.contains(place)
                    ==> before.known.contains(place)) by {
                joint_states_hold_both(before, state, place, 0, 0, none, place);
            }
            let numbers = before.constant_indices;
            let count = numbers.len() as int;
            assert(numbers.take(count) =~= numbers);
            assert forall|number: (usize, u64)| #[trigger]
                after.constant_indices.contains(number) implies before.constant_indices.contains(
                number,
            ) && state.constant_indices.contains(number) by {
                numbers_are_those_of_each(numbers, state.constant_indices, count, number);
            }
            if !changed {
                assert forall|number: (usize, u64)| #[trigger]
                    before.constant_indices.contains(number) implies
                    state.constant_indices.contains(number) && after.constant_indices.contains(
                    number,
                ) by {
                    numbers_are_those_of_each(numbers, state.constant_indices, count, number);
                }
                assert forall|place: PlaceModel, id: usize| #[trigger]
                    type_behind(state, place, id) implies type_behind(before, place, id) by {
                    joint_states_hold_both(before, state, place, id, 0, none, place);
                }
                assert forall|place: PlaceModel, parameter: usize| #[trigger]
                    parameter_behind(state, place, parameter) implies parameter_behind(
                    before,
                    place,
                    parameter,
                ) by {
                    joint_states_hold_both(before, state, place, 0, parameter, none, place);
                }
                assert forall|place: PlaceModel, reason: UnresolvedReason| #[trigger]
                    reason_behind(state, place, reason) implies reason_behind(
                    before,
                    place,
                    reason,
                ) by {
                    joint_states_hold_both(before, state, place, 0, 0, reason, place);
                }
                assert forall|place: PlaceModel, target: PlaceModel| #[trigger]
                    leads_to(state, place, target) implies leads_to(before, place, target) by {
                    joint_states_hold_both(before, state, place, 0, 0, none, target);
                }
                assert forall|place: PlaceModel| #[trigger]
                    state.uncertain_aliases.contains(
                    place,
                ) implies before.uncertain_aliases.contains(place) by {
                    joint_states_hold_both(before, state, place, 0, 0, none, place);
                }
                assert forall|place: PlaceModel| #[trigger]
                    state.known.contains(place) implies before.known.contains(place) by {
                    joint_states_hold_both(before, state, place, 0, 0, none, place);
                }
                assert(allows_for(before, state));
                assert(allows_for(before, after));
            }
        },
    }
}

} // verus!
