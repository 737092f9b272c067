//! The flow of dynamic values through a body.
use crate::lists::{bound, copy_list, value_of, views};
use crate::model::UnresolvedReason;
use crate::rust::mir::{
    carries_dyn, contains_dyn, holds_dyn, is_dyn, is_pointer, may_borrow_dyn, optional_type,
    type_carries_dyn, type_contains_dyn, type_is_pointer, type_may_borrow_dyn, whole,
    AggregateKind, Assignment, AssignmentModel, CallTerminator, CallTerminatorModel, Callee,
    ConstantKind, MirType, Operand, OperandModel, OperandValue, OperandValueModel, Place,
    PlaceModel, Projection, Rvalue, RvalueModel, TypeModel,
};
use crate::rust::provenance::{
    add_place, alias_places, dyn_place_is_known, find_number, flow_at, forget_number, is_known,
    is_nothing, is_uncertain, joint, known_number, merge_dyn_place, merged_place, nothing,
    place_alias_is_uncertain, read_dyn_place, remove_at, remove_place, resolve_alias_places,
    resolve_symbolic_flow, set_at, set_number, substituted, unresolved_flow, value_at, with_item,
    without_item, without_key, write_dyn_place, written, concrete_flow, extended_place, DynFlow,
    DynModel, DynState, PlaceList, StateModel,
};
use crate::sets::{add_reason, with_reason};
use vstd::prelude::*;

verus! {

/// Whether a constant has no pointers.
pub open spec fn constant_is_known(kind: ConstantKind) -> bool {
    match kind {
        ConstantKind::ZeroSized => true,
        ConstantKind::Allocated { pointers } => pointers == 0,
        ConstantKind::Symbolic => false,
    }
}

/// Whether what stands behind an operand is known.
pub open spec fn operand_is_known(state: StateModel, operand: OperandModel) -> bool {
    match operand.ty {
        Some(ty) if !contains_dyn(ty.text) => true,
        _ => match operand.value {
            OperandValueModel::Place(place) => is_known(state, place),
            OperandValueModel::Constant { kind, word } => constant_is_known(kind),
            OperandValueModel::RuntimeCheck => true,
        },
    }
}

/// Whether what stands behind an operand is known.
pub fn operand_provenance_is_known(state: &DynState, operand: &Operand) -> (result: bool)
    ensures
        result == operand_is_known(state@, operand@),
{
    match &operand.ty {
        Some(ty) => {
            if !type_contains_dyn(ty) {
                return true;
            }
        },
        None => {},
    }
    match &operand.value {
        OperandValue::Place(place) => dyn_place_is_known(state, place),
        OperandValue::Constant { kind, word: _ } => match kind {
            ConstantKind::ZeroSized => true,
            ConstantKind::Allocated { pointers } => *pointers == 0,
            ConstantKind::Symbolic => false,
        },
        OperandValue::RuntimeCheck => true,
    }
}

/// What stands behind an operand.
pub open spec fn operand_flow(state: StateModel, operand: OperandModel) -> DynModel {
    let flow = match operand.value {
        OperandValueModel::Place(place) => flow_at(state, place),
        _ => nothing(),
    };
    if is_nothing(flow) && !operand_is_known(state, operand) && is_dyn(operand.ty) {
        unresolved_flow(UnresolvedReason::ExternalMemory)
    } else {
        flow
    }
}

/// What stands behind an operand.
pub fn dyn_flow_for_operand(state: &DynState, operand: &Operand) -> (result: DynFlow)
    ensures
        result@ == operand_flow(state@, operand@),
{
    let flow = match &operand.value {
        OperandValue::Place(place) => read_dyn_place(state, place),
        _ => DynFlow::empty(),
    };
    if flow.is_empty() && !operand_provenance_is_known(state, operand) && holds_dyn(&operand.ty) {
        DynFlow::unresolved(UnresolvedReason::ExternalMemory)
    } else {
        flow
    }
}

/// What stands behind each operand.
pub open spec fn operand_flows(state: StateModel, operands: Seq<OperandModel>) -> Seq<DynModel> {
    operands.map_values(|operand: OperandModel| operand_flow(state, operand))
}

pub fn flows_for_operands(state: &DynState, operands: &Vec<Operand>) -> (result: Vec<DynFlow>)
    ensures
        views(result@) == operand_flows(state@, views(operands@)),
{
    let mut result: Vec<DynFlow> = Vec::new();
    let mut index: usize = 0;
    while index < operands.len()
        invariant
            index <= operands@.len(),
            result@.len() == index,
            forall|k: int|
                0 <= k < index ==> (#[trigger] result@[k])@ == operand_flow(
                    state@,
                    operands@[k]@,
                ),
        decreases operands@.len() - index,
    {
        result.push(dyn_flow_for_operand(state, &operands[index]));
        index += 1;
    }
    proof {
        assert(views(result@) =~= operand_flows(state@, views(operands@)));
    }
    result
}

/// What stands behind the first `count` of some values together.
pub open spec fn joint_flows(flows: Seq<DynModel>, count: int) -> DynModel
    decreases count,
{
    if count <= 0 {
        nothing()
    } else {
        joint(joint_flows(flows, count - 1), flows[count - 1])
    }
}

/// Whether what stands behind each operand is known.
pub open spec fn operands_are_known(state: StateModel, operands: Seq<OperandModel>) -> bool {
    forall|index: int|
        0 <= index < operands.len() ==> operand_is_known(state, #[trigger] operands[index])
}

/// Whether what stands behind a computed value is known.
pub open spec fn rvalue_is_known(state: StateModel, value: RvalueModel) -> bool {
    match value {
        RvalueModel::Use(operand) => operand_is_known(state, operand),
        RvalueModel::Repeat(operand) => operand_is_known(state, operand),
        RvalueModel::Unsize { operand, concrete } => operand_is_known(state, operand),
        RvalueModel::Cast(operand) => operand_is_known(state, operand),
        RvalueModel::Unary(operand) => operand_is_known(state, operand),
        RvalueModel::Ref(place) => is_known(state, place),
        RvalueModel::Aggregate { kind, operands } => operands_are_known(state, operands),
        RvalueModel::Binary(left, right) => operand_is_known(state, left) && operand_is_known(
            state,
            right,
        ),
        RvalueModel::Plain => true,
    }
}

fn operands_provenance_is_known(state: &DynState, operands: &Vec<Operand>) -> (result: bool)
    ensures
        result == operands_are_known(state@, views(operands@)),
{
    let mut index: usize = 0;
    while index < operands.len()
        invariant
            index <= operands@.len(),
            forall|k: int|
                0 <= k < index ==> operand_is_known(state@, #[trigger] views(operands@)[k]),
        decreases operands@.len() - index,
    {
        proof {
            assert(views(operands@)[index as int] == operands@[index as int]@);
        }
        if !operand_provenance_is_known(state, &operands[index]) {
            return false;
        }
        index += 1;
    }
    true
}

/// Whether what stands behind a computed value is known.
pub fn rvalue_provenance_is_known(state: &DynState, value: &Rvalue) -> (result: bool)
    ensures
        result == rvalue_is_known(state@, value@),
{
    match value {
        Rvalue::Use(operand) => operand_provenance_is_known(state, operand),
        Rvalue::Repeat(operand) => operand_provenance_is_known(state, operand),
        Rvalue::Unsize { operand, concrete: _ } => operand_provenance_is_known(state, operand),
        Rvalue::Cast(operand) => operand_provenance_is_known(state, operand),
        Rvalue::Unary(operand) => operand_provenance_is_known(state, operand),
        Rvalue::Ref(place) => dyn_place_is_known(state, place),
        Rvalue::Aggregate { kind: _, operands } => operands_provenance_is_known(state, operands),
        Rvalue::Binary(left, right) => operand_provenance_is_known(state, left)
            && operand_provenance_is_known(state, right),
        Rvalue::Plain => true,
    }
}

/// What stands behind the parts of a computed value.
pub open spec fn parts_of_rvalue(state: StateModel, value: RvalueModel) -> DynModel {
    match value {
        RvalueModel::Use(operand) => operand_flow(state, operand),
        RvalueModel::Repeat(operand) => operand_flow(state, operand),
        RvalueModel::Unsize { operand, concrete } => match concrete {
            Some(concrete) => concrete_flow(concrete),
            None => operand_flow(state, operand),
        },
        RvalueModel::Cast(operand) => operand_flow(state, operand),
        RvalueModel::Unary(operand) => operand_flow(state, operand),
        RvalueModel::Ref(place) => flow_at(state, place),
        RvalueModel::Aggregate { kind, operands } => joint_flows(
            operand_flows(state, operands),
            operands.len() as int,
        ),
        RvalueModel::Binary(left, right) => joint(
            operand_flow(state, left),
            operand_flow(state, right),
        ),
        RvalueModel::Plain => nothing(),
    }
}

/// What stands behind a computed value of a type.
pub open spec fn rvalue_flow(
    state: StateModel,
    value: RvalueModel,
    ty: Option<TypeModel>,
) -> DynModel {
    let flow = parts_of_rvalue(state, value);
    if is_nothing(flow) && !rvalue_is_known(state, value) && is_dyn(ty) {
        unresolved_flow(UnresolvedReason::AnalysisLimit)
    } else {
        flow
    }
}

/// What stands behind a computed value of a type.
pub fn dyn_flow_for_rvalue(state: &DynState, value: &Rvalue, ty: &Option<MirType>) -> (result:
    DynFlow)
    ensures
        result@ == rvalue_flow(state@, value@, optional_type(*ty)),
{
    let flow = match value {
        Rvalue::Use(operand) => dyn_flow_for_operand(state, operand),
        Rvalue::Repeat(operand) => dyn_flow_for_operand(state, operand),
        Rvalue::Unsize { operand, concrete } => match concrete {
            Some(concrete) => DynFlow::concrete(concrete.clone()),
            None => dyn_flow_for_operand(state, operand),
        },
        Rvalue::Cast(operand) => dyn_flow_for_operand(state, operand),
        Rvalue::Unary(operand) => dyn_flow_for_operand(state, operand),
        Rvalue::Ref(place) => read_dyn_place(state, place),
        Rvalue::Aggregate { kind: _, operands } => {
            let mut aggregate = DynFlow::empty();
            let mut index: usize = 0;
            while index < operands.len()
                invariant
                    index <= operands@.len(),
                    aggregate@ == joint_flows(
                        operand_flows(state@, views(operands@)),
                        index as int,
                    ),
                decreases operands@.len() - index,
            {
                proof {
                    assert(views(operands@)[index as int] == operands@[index as int]@);
                }
                let changed = aggregate.merge(&dyn_flow_for_operand(state, &operands[index]));
                index += 1;
            }
            proof {
                assert(views(operands@).len() == operands@.len());
            }
            aggregate
        },
        Rvalue::Binary(left, right) => {
            let mut combined = dyn_flow_for_operand(state, left);
            let changed = combined.merge(&dyn_flow_for_operand(state, right));
            combined
        },
        Rvalue::Plain => DynFlow::empty(),
    };
    if flow.is_empty() && !rvalue_provenance_is_known(state, value) && holds_dyn(ty) {
        DynFlow::unresolved(UnresolvedReason::AnalysisLimit)
    } else {
        flow
    }
}

/// The number that an operand is known to be.
pub open spec fn operand_number(state: StateModel, operand: OperandModel) -> Option<u64> {
    match operand.value {
        OperandValueModel::Constant { kind, word } => match operand.ty {
            Some(ty) if ty.word => word,
            _ => None,
        },
        OperandValueModel::Place(place) => if place.projection.len() == 0 {
            known_number(state.constant_indices, place.local)
        } else {
            None
        },
        OperandValueModel::RuntimeCheck => None,
    }
}

/// The number that a computed value is known to be.
pub open spec fn rvalue_number(state: StateModel, value: RvalueModel) -> Option<u64> {
    match value {
        RvalueModel::Use(operand) => operand_number(state, operand),
        RvalueModel::Cast(operand) => operand_number(state, operand),
        RvalueModel::Unsize { operand, concrete } => operand_number(state, operand),
        _ => None,
    }
}

fn number_of_operand(state: &DynState, operand: &Operand) -> (result: Option<u64>)
    ensures
        result == operand_number(state@, operand@),
{
    match &operand.value {
        OperandValue::Constant { kind: _, word } => match &operand.ty {
            Some(ty) => if ty.word {
                *word
            } else {
                None
            },
            None => None,
        },
        OperandValue::Place(place) => if place.projection.len() == 0 {
            find_number(&state.constant_indices, place.local)
        } else {
            None
        },
        OperandValue::RuntimeCheck => None,
    }
}

/// The number that a computed value is known to be.
pub fn constant_index_for_rvalue(state: &DynState, value: &Rvalue) -> (result: Option<u64>)
    ensures
        result == rvalue_number(state@, value@),
{
    match value {
        Rvalue::Use(operand) => number_of_operand(state, operand),
        Rvalue::Cast(operand) => number_of_operand(state, operand),
        Rvalue::Unsize { operand, concrete: _ } => number_of_operand(state, operand),
        _ => None,
    }
}

/// What the parameters of a function come to hold, when more stands behind
/// what the first `count` parameters of a region hold.
pub open spec fn with_effect(
    effects: Seq<DynModel>,
    parameters: Seq<usize>,
    effect: DynModel,
    count: int,
) -> Seq<DynModel>
    decreases count,
{
    if count <= 0 {
        effects
    } else {
        let before = with_effect(effects, parameters, effect, count - 1);
        let parameter = parameters[count - 1] as int;
        if parameter < before.len() {
            before.update(parameter, joint(before[parameter], effect))
        } else {
            before
        }
    }
}

/// Adds what was written to what stands behind the parameters of a region.
pub fn propagate_region_effect(region: &DynFlow, effect: &DynFlow, caller_effects: &mut Vec<DynFlow>)
    ensures
        views(final(caller_effects)@) == with_effect(
            views(old(caller_effects)@),
            region@.parameters,
            effect@,
            region@.parameters.len() as int,
        ),
{
    let ghost start = views(caller_effects@);
    let mut index: usize = 0;
    while index < region.parameters.len()
        invariant
            index <= region.parameters@.len(),
            views(caller_effects@) == with_effect(
                start,
                region@.parameters,
                effect@,
                index as int,
            ),
        decreases region.parameters@.len() - index,
    {
        let parameter: usize = region.parameters[index];
        let ghost before = views(caller_effects@);
        proof {
            assert(before.len() == caller_effects@.len());
        }
        if parameter < caller_effects.len() {
            proof {
                assert(before[parameter as int] == caller_effects@[parameter as int]@);
            }
            let mut value = caller_effects[parameter].clone();
            let changed = value.merge(effect);
            let ghost model = value@;
            caller_effects.set(parameter, value);
            proof {
                assert(views(caller_effects@) =~= before.update(parameter as int, model));
            }
        }
        index += 1;
    }
}

/// What stands behind values that are told apart by numbers.
#[derive(Debug)]
pub struct NumberedFlow {
    pub number: usize,
    pub flow: DynFlow,
}

impl View for NumberedFlow {
    type V = (usize, DynModel);

    open spec fn view(&self) -> (usize, DynModel) {
        (self.number, self.flow@)
    }
}

/// The flow under a number.
pub fn numbered_flow<'a>(flows: &'a Vec<NumberedFlow>, number: usize) -> (result: Option<
    &'a DynFlow,
>)
    ensures
        match result {
            Some(flow) => value_of(views(flows@), number) == Some(flow@),
            None => value_of(views(flows@), number) is None,
        },
{
    match numbered_place(flows, number) {
        Some(index) => {
            proof {
                assert(views(flows@)[index as int] == flows@[index as int]@);
            }
            Some(&flows[index].flow)
        },
        None => None,
    }
}

fn numbered_place(flows: &Vec<NumberedFlow>, number: usize) -> (result: Option<usize>)
    ensures
        match result {
            Some(index) => index < flows@.len() && crate::lists::place_of(
                views(flows@),
                number,
                0,
            ) == Some(index as int),
            None => crate::lists::place_of(views(flows@), number, 0) is None,
        },
{
    let mut index: usize = 0;
    while index < flows.len()
        invariant
            index <= flows@.len(),
            crate::lists::place_of(views(flows@), number, index as int)
                == crate::lists::place_of(views(flows@), number, 0),
        decreases flows@.len() - index,
    {
        proof {
            assert(views(flows@)[index as int] == flows@[index as int]@);
        }
        if flows[index].number == number {
            return Some(index);
        }
        index += 1;
    }
    None
}

/// Numbered flows with more behind a number.
pub open spec fn with_numbered(
    flows: Seq<(usize, DynModel)>,
    number: usize,
    flow: DynModel,
) -> Seq<(usize, DynModel)> {
    let before = match value_of(flows, number) {
        Some(before) => before,
        None => nothing(),
    };
    bound(flows, number, joint(before, flow))
}

fn add_numbered(flows: &mut Vec<NumberedFlow>, number: usize, flow: &DynFlow)
    ensures
        views(final(flows)@) == with_numbered(views(old(flows)@), number, flow@),
{
    let ghost before = views(flows@);
    match numbered_place(flows, number) {
        Some(index) => {
            proof {
                assert(before[index as int] == flows@[index as int]@);
            }
            let mut value = flows[index].flow.clone();
            let changed = value.merge(flow);
            let ghost model = value@;
            flows.set(index, NumberedFlow { number, flow: value });
            proof {
                assert(views(flows@) =~= before.update(index as int, (number, model)));
            }
        },
        None => {
            let mut value = DynFlow::empty();
            let changed = value.merge(flow);
            let ghost model = value@;
            flows.push(NumberedFlow { number, flow: value });
            proof {
                assert(views(flows@) =~= before.push((number, model)));
            }
        },
    }
}

/// What is known while a block is run: the state, what the parameters come to
/// hold, and what is captured by coroutines.
#[verifier::ext_equal]
pub struct RunModel {
    pub state: StateModel,
    pub effects: Seq<DynModel>,
    pub coroutines: Seq<(usize, DynModel)>,
}

/// A state in which a place is an alias of others.
pub open spec fn with_alias(
    state: StateModel,
    place: PlaceModel,
    targets: Seq<PlaceModel>,
    uncertain: bool,
) -> StateModel {
    StateModel {
        aliases: bound(state.aliases, place, targets),
        uncertain_aliases: if uncertain {
            with_item(state.uncertain_aliases, place)
        } else {
            without_item(
                state.uncertain_aliases,
                place,
                state.uncertain_aliases.len() as int,
            )
        },
        ..state
    }
}

/// A state in which a place is no alias.
pub open spec fn without_alias(state: StateModel, place: PlaceModel) -> StateModel {
    StateModel {
        aliases: without_key(state.aliases, place),
        uncertain_aliases: without_item(
            state.uncertain_aliases,
            place,
            state.uncertain_aliases.len() as int,
        ),
        ..state
    }
}

pub fn set_alias(state: &mut DynState, place: &Place, targets: Vec<Place>, uncertain: bool)
    ensures
        final(state)@ == with_alias(old(state)@, place@, views(targets@), uncertain),
{
    proof {
        assert(views(state.uncertain_aliases@).len() == state.uncertain_aliases@.len());
    }
    set_at(&mut state.aliases, place, PlaceList { places: targets });
    if uncertain {
        let added = add_place(&mut state.uncertain_aliases, place);
    } else {
        remove_place(&mut state.uncertain_aliases, place);
    }
}

fn forget_alias(state: &mut DynState, place: &Place)
    ensures
        final(state)@ == without_alias(old(state)@, place@),
{
    proof {
        assert(views(state.uncertain_aliases@).len() == state.uncertain_aliases@.len());
    }
    remove_at(&mut state.aliases, place);
    remove_place(&mut state.uncertain_aliases, place);
}

/// A state in which the number that a local holds is up to date.
pub open spec fn with_known_number(
    state: StateModel,
    destination: PlaceModel,
    value: RvalueModel,
) -> StateModel {
    if destination.projection.len() == 0 {
        StateModel {
            constant_indices: match rvalue_number(state, value) {
                Some(number) => bound(state.constant_indices, destination.local, number),
                None => without_key(state.constant_indices, destination.local),
            },
            ..state
        }
    } else {
        state
    }
}

/// The place that a value is moved or cast from.
pub open spec fn moved_place(value: RvalueModel) -> Option<PlaceModel> {
    let operand = match value {
        RvalueModel::Use(operand) => Some(operand),
        RvalueModel::Cast(operand) => Some(operand),
        RvalueModel::Unsize { operand, concrete } => Some(operand),
        _ => None,
    };
    match operand {
        Some(operand) => match operand.value {
            OperandValueModel::Place(place) => Some(place),
            _ => None,
        },
        None => None,
    }
}

/// A state in which the aliases of a destination are up to date.
pub open spec fn with_new_alias(
    state: StateModel,
    destination: PlaceModel,
    value: RvalueModel,
) -> StateModel {
    match value {
        RvalueModel::Ref(source) => with_alias(
            state,
            destination,
            alias_places(state, source),
            is_uncertain(state, source),
        ),
        _ => match moved_place(value) {
            Some(source) => match value_of(state.aliases, source) {
                Some(targets) => with_alias(
                    state,
                    destination,
                    targets,
                    is_uncertain(state, source),
                ),
                None => without_alias(state, destination),
            },
            None => without_alias(state, destination),
        },
    }
}

/// The step to a part of an aggregate.
pub open spec fn part_step(
    kind: AggregateKind,
    index: usize,
    count: nat,
    ty: TypeModel,
) -> Option<Seq<Projection>> {
    match kind {
        AggregateKind::Tuple => Some(seq![Projection::Field { index, ty: ty.id }]),
        AggregateKind::Struct => Some(seq![Projection::Field { index, ty: ty.id }]),
        AggregateKind::Variant(variant) => Some(
            seq![Projection::Downcast(variant), Projection::Field { index, ty: ty.id }],
        ),
        AggregateKind::Array => Some(
            seq![
                Projection::ConstantIndex {
                    offset: index as u64,
                    min_length: count as u64,
                    from_end: false,
                },
            ],
        ),
        _ => None,
    }
}

/// A state after the first `count` parts of an aggregate were written.
pub open spec fn parts_written(
    state: StateModel,
    destination: PlaceModel,
    kind: AggregateKind,
    operands: Seq<OperandModel>,
    count: int,
) -> StateModel
    decreases count,
{
    if count <= 0 {
        state
    } else {
        let before = parts_written(state, destination, kind, operands, count - 1);
        let operand = operands[count - 1];
        match operand.ty {
            Some(ty) => match part_step(kind, (count - 1) as usize, operands.len(), ty) {
                Some(steps) => written(
                    before,
                    extended_place(destination, steps),
                    operand_flow(before, operand),
                ),
                None => before,
            },
            None => before,
        }
    }
}

/// What is known after an assignment.
pub open spec fn after_assignment(run: RunModel, assignment: AssignmentModel) -> RunModel {
    let destination = assignment.destination;
    let numbered = with_known_number(run.state, destination, assignment.value);
    let aliased = with_new_alias(numbered, destination, assignment.value);
    let flow = rvalue_flow(aliased, assignment.value, assignment.ty);
    let region = flow_at(aliased, whole(destination.local));
    let stored = written(aliased, destination, flow);
    RunModel {
        state: match assignment.value {
            RvalueModel::Aggregate { kind, operands } => parts_written(
                stored,
                destination,
                kind,
                operands,
                operands.len() as int,
            ),
            _ => stored,
        },
        effects: if destination.projection.len() > 0 {
            with_effect(
                run.effects,
                region.parameters,
                flow,
                region.parameters.len() as int,
            )
        } else {
            run.effects
        },
        coroutines: match assignment.value {
            RvalueModel::Aggregate {
                kind: AggregateKind::Coroutine(instance),
                operands,
            } => with_numbered(run.coroutines, instance, flow),
            _ => run.coroutines,
        },
    }
}

fn update_number(state: &mut DynState, destination: &Place, value: &Rvalue)
    ensures
        final(state)@ == with_known_number(old(state)@, destination@, value@),
{
    if destination.projection.len() == 0 {
        match constant_index_for_rvalue(state, value) {
            Some(number) => {
                set_number(&mut state.constant_indices, destination.local, number);
            },
            None => {
                forget_number(&mut state.constant_indices, destination.local);
            },
        }
    }
}

fn operand_place(operand: &Operand) -> (result: Option<&Place>)
    ensures
        match result {
            Some(place) => operand@.value == OperandValueModel::Place(place@),
            None => !(operand@.value is Place),
        },
{
    match &operand.value {
        OperandValue::Place(place) => Some(place),
        _ => None,
    }
}

fn update_alias(state: &mut DynState, destination: &Place, value: &Rvalue)
    ensures
        final(state)@ == with_new_alias(old(state)@, destination@, value@),
{
    let moved = match value {
        Rvalue::Ref(source) => {
            let targets = resolve_alias_places(state, source);
            let uncertain = place_alias_is_uncertain(state, source);
            set_alias(state, destination, targets, uncertain);
            return ;
        },
        Rvalue::Use(operand) => operand_place(operand),
        Rvalue::Cast(operand) => operand_place(operand),
        Rvalue::Unsize { operand, concrete: _ } => operand_place(operand),
        _ => None,
    };
    let found = match moved {
        Some(source) => match value_at(&state.aliases, source) {
            Some(targets) => Some(
                (copy_list(&targets.places), place_alias_is_uncertain(state, source)),
            ),
            None => None,
        },
        None => None,
    };
    match found {
        Some((targets, uncertain)) => {
            set_alias(state, destination, targets, uncertain);
        },
        None => {
            forget_alias(state, destination);
        },
    }
}

fn place_of_part(
    destination: &Place,
    kind: AggregateKind,
    index: usize,
    count: usize,
    ty: &MirType,
) -> (result: Option<Place>)
    ensures
        match result {
            Some(place) => part_step(kind, index, count as nat, ty@) is Some && place@
                == extended_place(destination@, part_step(kind, index, count as nat, ty@)->0),
            None => part_step(kind, index, count as nat, ty@) is None,
        },
{
    let mut place = destination.clone();
    let ghost steps = part_step(kind, index, count as nat, ty@);
    match kind {
        AggregateKind::Tuple => {
            place.projection.push(Projection::Field { index, ty: ty.id });
        },
        AggregateKind::Struct => {
            place.projection.push(Projection::Field { index, ty: ty.id });
        },
        AggregateKind::Variant(variant) => {
            place.projection.push(Projection::Downcast(variant));
            place.projection.push(Projection::Field { index, ty: ty.id });
        },
        AggregateKind::Array => {
            place.projection.push(
                Projection::ConstantIndex {
                    offset: index as u64,
                    min_length: count as u64,
                    from_end: false,
                },
            );
        },
        _ => {
            return None;
        },
    }
    proof {
        assert(place.projection@ =~= destination@.projection + steps->0);
    }
    Some(place)
}

fn write_parts(
    state: &mut DynState,
    destination: &Place,
    kind: AggregateKind,
    operands: &Vec<Operand>,
)
    ensures
        final(state)@ == parts_written(
            old(state)@,
            destination@,
            kind,
            views(operands@),
            operands@.len() as int,
        ),
{
    let ghost start = state@;
    let count: usize = operands.len();
    let mut index: usize = 0;
    proof {
        assert(views(operands@).len() == operands@.len());
    }
    while index < count
        invariant
            index <= count,
            count == operands@.len(),
            views(operands@).len() == count,
            state@ == parts_written(start, destination@, kind, views(operands@), index as int),
        decreases count - index,
    {
        let operand = &operands[index];
        proof {
            assert(views(operands@)[index as int] == operand@);
        }
        match &operand.ty {
            Some(ty) => {
                match place_of_part(destination, kind, index, count, ty) {
                    Some(place) => {
                        let flow = dyn_flow_for_operand(state, operand);
                        write_dyn_place(state, &place, &flow);
                    },
                    None => {},
                }
            },
            None => {},
        }
        index += 1;
    }
}

/// Runs an assignment.
pub fn transfer_dyn_statement(
    state: &mut DynState,
    assignment: &Assignment,
    parameter_effects: &mut Vec<DynFlow>,
    generated_coroutine_flows: &mut Vec<NumberedFlow>,
)
    ensures
        (RunModel {
            state: final(state)@,
            effects: views(final(parameter_effects)@),
            coroutines: views(final(generated_coroutine_flows)@),
        }) == after_assignment(
            (RunModel {
                state: old(state)@,
                effects: views(old(parameter_effects)@),
                coroutines: views(old(generated_coroutine_flows)@),
            }),
            assignment@,
        ),
{
    let destination = &assignment.destination;
    update_number(state, destination, &assignment.value);
    update_alias(state, destination, &assignment.value);
    let flow = dyn_flow_for_rvalue(state, &assignment.value, &assignment.ty);
    match &assignment.value {
        Rvalue::Aggregate { kind, operands: _ } => {
            match kind {
                AggregateKind::Coroutine(instance) => {
                    add_numbered(generated_coroutine_flows, *instance, &flow);
                },
                _ => {},
            }
        },
        _ => {},
    }
    if destination.projection.len() > 0 {
        let region = read_dyn_place(state, &Place::of_local(destination.local));
        propagate_region_effect(&region, &flow, parameter_effects);
    }
    write_dyn_place(state, destination, &flow);
    match &assignment.value {
        Rvalue::Aggregate { kind, operands } => {
            proof {
                assert(views(operands@).len() == operands@.len());
            }
            write_parts(state, destination, *kind, operands);
        },
        _ => {},
    }
}

/// What a body does, in terms of its parameters.
#[derive(Debug)]
pub struct DynSummary {
    pub return_flow: DynFlow,
    /// What the returned reference can lead to: parts of parameters, with the
    /// number of the parameter as the local.
    pub return_aliases: Vec<Place>,
    /// Whether the returned reference can lead elsewhere.
    pub return_alias_open: bool,
    /// What comes to stand behind each parameter.
    pub parameter_effects: Vec<DynFlow>,
}

#[verifier::ext_equal]
pub struct SummaryModel {
    pub return_flow: DynModel,
    pub return_aliases: Seq<PlaceModel>,
    pub return_alias_open: bool,
    pub parameter_effects: Seq<DynModel>,
}

impl View for DynSummary {
    type V = SummaryModel;

    open spec fn view(&self) -> SummaryModel {
        SummaryModel {
            return_flow: self.return_flow@,
            return_aliases: views(self.return_aliases@),
            return_alias_open: self.return_alias_open,
            parameter_effects: views(self.parameter_effects@),
        }
    }
}

/// The summary of an instance.
#[derive(Debug)]
pub struct InstanceSummary {
    pub instance: usize,
    pub summary: DynSummary,
}

impl View for InstanceSummary {
    type V = (usize, SummaryModel);

    open spec fn view(&self) -> (usize, SummaryModel) {
        (self.instance, self.summary@)
    }
}

/// What is known of the functions that a body calls: the summaries that are
/// there, and the instances that are analyzed at all.
pub struct CallKnowledge<'a> {
    pub summaries: &'a Vec<InstanceSummary>,
    pub analyzed: &'a Vec<usize>,
}

#[verifier::ext_equal]
pub struct KnowledgeModel {
    pub summaries: Seq<(usize, SummaryModel)>,
    pub analyzed: Seq<usize>,
}

impl<'a> View for CallKnowledge<'a> {
    type V = KnowledgeModel;

    open spec fn view(&self) -> KnowledgeModel {
        KnowledgeModel { summaries: views(self.summaries@), analyzed: self.analyzed@ }
    }
}

/// The place of the summary of an instance.
pub fn summary_place(summaries: &Vec<InstanceSummary>, instance: usize) -> (result: Option<usize>)
    ensures
        match result {
            Some(index) => index < summaries@.len() && crate::lists::place_of(
                views(summaries@),
                instance,
                0,
            ) == Some(index as int),
            None => crate::lists::place_of(views(summaries@), instance, 0) is None,
        },
{
    let mut index: usize = 0;
    while index < summaries.len()
        invariant
            index <= summaries@.len(),
            crate::lists::place_of(views(summaries@), instance, index as int)
                == crate::lists::place_of(views(summaries@), instance, 0),
        decreases summaries@.len() - index,
    {
        proof {
            assert(views(summaries@)[index as int] == summaries@[index as int]@);
        }
        if summaries[index].instance == instance {
            return Some(index);
        }
        index += 1;
    }
    None
}

/// The summary of what is called.
pub open spec fn summary_of(known: KnowledgeModel, callee: Option<Callee>) -> Option<SummaryModel> {
    match callee {
        Some(callee) => value_of(known.summaries, callee.instance),
        None => None,
    }
}

/// Whether what is called is analyzed, so that its summary may still come.
pub open spec fn is_analyzed(known: KnowledgeModel, callee: Option<Callee>) -> bool {
    match callee {
        Some(callee) => known.analyzed.contains(callee.instance),
        None => false,
    }
}

fn find_summary<'a>(known: &CallKnowledge<'a>, callee: Option<Callee>) -> (result: Option<
    &'a DynSummary,
>)
    ensures
        match result {
            Some(summary) => summary_of(known@, callee) == Some(summary@),
            None => summary_of(known@, callee) is None,
        },
{
    match callee {
        Some(callee) => match summary_place(known.summaries, callee.instance) {
            Some(index) => {
                proof {
                    assert(known@.summaries[index as int] == known.summaries@[index as int]@);
                }
                Some(&known.summaries[index].summary)
            },
            None => None,
        },
        None => None,
    }
}

fn has_instance(instances: &Vec<usize>, instance: usize) -> (result: bool)
    ensures
        result == instances@.contains(instance),
{
    let mut index: usize = 0;
    while index < instances.len()
        invariant
            index <= instances@.len(),
            forall|k: int| 0 <= k < index ==> instances@[k] != instance,
        decreases instances@.len() - index,
    {
        if instances[index] == instance {
            return true;
        }
        index += 1;
    }
    false
}

fn callee_is_analyzed(known: &CallKnowledge, callee: Option<Callee>) -> (result: bool)
    ensures
        result == is_analyzed(known@, callee),
{
    match callee {
        Some(callee) => has_instance(known.analyzed, callee.instance),
        None => false,
    }
}

/// What code that is not known can return: what the first `count` arguments of
/// dynamic types hold, and more.
pub open spec fn external_flow(
    arguments: Seq<OperandModel>,
    flows: Seq<DynModel>,
    count: int,
) -> DynModel
    decreases count,
{
    if count <= 0 {
        unresolved_flow(UnresolvedReason::ExternalCode)
    } else {
        let before = external_flow(arguments, flows, count - 1);
        if is_dyn(arguments[count - 1].ty) {
            joint(before, flows[count - 1])
        } else {
            before
        }
    }
}

/// What a call returns.
pub open spec fn returned_flow(
    known: KnowledgeModel,
    call: CallTerminatorModel,
    flows: Seq<DynModel>,
) -> DynModel {
    let opaque = if is_dyn(call.destination_type) {
        unresolved_flow(UnresolvedReason::ExternalCode)
    } else {
        nothing()
    };
    match call.callee {
        None => opaque,
        Some(callee) => if callee.is_virtual {
            opaque
        } else {
            match value_of(known.summaries, callee.instance) {
                Some(summary) => substituted(summary.return_flow, flows),
                None => if known.analyzed.contains(callee.instance) || !is_dyn(
                    call.destination_type,
                ) {
                    nothing()
                } else {
                    external_flow(call.arguments, flows, call.arguments.len() as int)
                },
            }
        },
    }
}

/// What code that is not known can return.
pub fn external_return_flow(
    arguments: &Vec<Operand>,
    destination_type: &Option<MirType>,
    argument_flows: &Vec<DynFlow>,
) -> (result: DynFlow)
    requires
        arguments@.len() == argument_flows@.len(),
    ensures
        result@ == (if is_dyn(optional_type(*destination_type)) {
            external_flow(views(arguments@), views(argument_flows@), arguments@.len() as int)
        } else {
            nothing()
        }),
{
    if !holds_dyn(destination_type) {
        return DynFlow::empty();
    }
    let mut flow = DynFlow::unresolved(UnresolvedReason::ExternalCode);
    let mut index: usize = 0;
    while index < arguments.len()
        invariant
            index <= arguments@.len(),
            arguments@.len() == argument_flows@.len(),
            flow@ == external_flow(views(arguments@), views(argument_flows@), index as int),
        decreases arguments@.len() - index,
    {
        proof {
            assert(views(arguments@)[index as int] == arguments@[index as int]@);
            assert(views(argument_flows@)[index as int] == argument_flows@[index as int]@);
        }
        if holds_dyn(&arguments[index].ty) {
            let changed = flow.merge(&argument_flows[index]);
        }
        index += 1;
    }
    flow
}

pub fn flow_of_call(known: &CallKnowledge, call: &CallTerminator, flows: &Vec<DynFlow>) -> (result:
    DynFlow)
    requires
        call.arguments@.len() == flows@.len(),
    ensures
        result@ == returned_flow(known@, call@, views(flows@)),
{
    proof {
        assert(views(call.arguments@).len() == call.arguments@.len());
    }
    let opaque = match call.callee {
        None => true,
        Some(callee) => callee.is_virtual,
    };
    if opaque {
        return if holds_dyn(&call.destination_type) {
            DynFlow::unresolved(UnresolvedReason::ExternalCode)
        } else {
            DynFlow::empty()
        };
    }
    match find_summary(known, call.callee) {
        Some(summary) => resolve_symbolic_flow(&summary.return_flow, flows),
        None => if callee_is_analyzed(known, call.callee) {
            DynFlow::empty()
        } else {
            external_return_flow(&call.arguments, &call.destination_type, flows)
        },
    }
}

/// Whether a parameter is among the first `count` places.
pub open spec fn mentions(places: Seq<PlaceModel>, parameter: usize) -> bool {
    exists|index: int| 0 <= index < places.len() && (#[trigger] places[index]).local == parameter
}

fn mentions_parameter(places: &Vec<Place>, parameter: usize) -> (result: bool)
    ensures
        result == mentions(views(places@), parameter),
{
    let mut index: usize = 0;
    while index < places.len()
        invariant
            index <= places@.len(),
            forall|k: int| 0 <= k < index ==> (#[trigger] views(places@)[k]).local != parameter,
        decreases places@.len() - index,
    {
        proof {
            assert(views(places@)[index as int] == places@[index as int]@);
        }
        if places[index].local == parameter {
            return true;
        }
        index += 1;
    }
    false
}

/// The places of a list, and the first `count` parameters that it does not
/// mention.
pub open spec fn with_parameters(
    places: Seq<PlaceModel>,
    parameters: Seq<usize>,
    count: int,
) -> Seq<PlaceModel>
    decreases count,
{
    if count <= 0 {
        places
    } else {
        let before = with_parameters(places, parameters, count - 1);
        if mentions(before, parameters[count - 1]) {
            before
        } else {
            before.push(whole(parameters[count - 1]))
        }
    }
}

fn add_parameters(places: &mut Vec<Place>, parameters: &Vec<usize>)
    ensures
        views(final(places)@) == with_parameters(
            views(old(places)@),
            parameters@,
            parameters@.len() as int,
        ),
{
    let ghost start = views(places@);
    let mut index: usize = 0;
    while index < parameters.len()
        invariant
            index <= parameters@.len(),
            views(places@) == with_parameters(start, parameters@, index as int),
        decreases parameters@.len() - index,
    {
        let ghost before = views(places@);
        if !mentions_parameter(places, parameters[index]) {
            places.push(Place::of_local(parameters[index]));
            proof {
                assert(views(places@) =~= before.push(whole(parameters@[index as int])));
            }
        }
        index += 1;
    }
}

/// The arguments among the first `count` that dynamic values can stand behind.
pub open spec fn dynamic_arguments(arguments: Seq<OperandModel>, count: int) -> Seq<PlaceModel>
    decreases count,
{
    if count <= 0 {
        Seq::empty()
    } else {
        let before = dynamic_arguments(arguments, count - 1);
        match arguments[count - 1].ty {
            Some(ty) if carries_dyn(ty.text) => before.push(whole((count - 1) as usize)),
            _ => before,
        }
    }
}

fn find_dynamic_arguments(arguments: &Vec<Operand>) -> (result: Vec<Place>)
    ensures
        views(result@) == dynamic_arguments(views(arguments@), arguments@.len() as int),
{
    let mut result: Vec<Place> = Vec::new();
    let mut index: usize = 0;
    proof {
        assert(views(result@) =~= Seq::empty());
    }
    while index < arguments.len()
        invariant
            index <= arguments@.len(),
            views(result@) == dynamic_arguments(views(arguments@), index as int),
        decreases arguments@.len() - index,
    {
        let ghost before = views(result@);
        proof {
            assert(views(arguments@)[index as int] == arguments@[index as int]@);
        }
        let dynamic = match &arguments[index].ty {
            Some(ty) => type_carries_dyn(ty),
            None => false,
        };
        if dynamic {
            result.push(Place::of_local(index));
            proof {
                assert(views(result@) =~= before.push(whole(index)));
            }
        }
        index += 1;
    }
    result
}

/// What a returned reference can lead to, in terms of the arguments, and
/// whether it can lead elsewhere.
pub open spec fn alias_sources(
    known: KnowledgeModel,
    call: CallTerminatorModel,
) -> Option<(Seq<PlaceModel>, bool)> {
    match call.destination_type {
        None => None,
        Some(ty) => {
            let direct = is_pointer(ty.text);
            if !direct && !may_borrow_dyn(ty.text) {
                None
            } else {
                match summary_of(known, call.callee) {
                    Some(summary) => {
                        let returned = summary.return_flow;
                        let sources = with_parameters(
                            if direct {
                                summary.return_aliases
                            } else {
                                Seq::empty()
                            },
                            returned.parameters,
                            returned.parameters.len() as int,
                        );
                        if sources.len() == 0 {
                            None
                        } else {
                            Some(
                                (
                                    sources,
                                    !direct || (summary.return_alias_open && (
                                    returned.parameters.len() == 0 || returned.concrete.len() > 0
                                        || returned.unresolved_reasons.len() > 0)),
                                ),
                            )
                        }
                    },
                    None => if is_analyzed(known, call.callee) {
                        None
                    } else {
                        Some(
                            (dynamic_arguments(call.arguments, call.arguments.len() as int), true),
                        )
                    },
                }
            }
        },
    }
}

fn find_alias_sources(known: &CallKnowledge, call: &CallTerminator) -> (result: Option<
    (Vec<Place>, bool),
>)
    ensures
        match result {
            Some((sources, uncertain)) => alias_sources(known@, call@) == Some(
                (views(sources@), uncertain),
            ),
            None => alias_sources(known@, call@) is None,
        },
{
    let ty = match &call.destination_type {
        Some(ty) => ty,
        None => {
            return None;
        },
    };
    let direct = type_is_pointer(ty);
    if !direct && !type_may_borrow_dyn(ty) {
        return None;
    }
    match find_summary(known, call.callee) {
        Some(summary) => {
            let mut sources: Vec<Place> = if direct {
                copy_list(&summary.return_aliases)
            } else {
                Vec::new()
            };
            proof {
                if !direct {
                    assert(views(sources@) =~= Seq::empty());
                }
            }
            add_parameters(&mut sources, &summary.return_flow.parameters);
            proof {
                assert(views(sources@).len() == sources@.len());
                assert(summary@.return_flow.concrete.len() == summary.return_flow.concrete@.len());
            }
            if sources.len() == 0 {
                return None;
            }
            let returned = &summary.return_flow;
            let open = !direct || (summary.return_alias_open && (returned.parameters.len() == 0
                || returned.concrete.len() > 0 || returned.unresolved_reasons.len() > 0));
            Some((sources, open))
        },
        None => {
            if callee_is_analyzed(known, call.callee) {
                return None;
            }
            proof {
                assert(views(call.arguments@).len() == call.arguments@.len());
            }
            Some((find_dynamic_arguments(&call.arguments), true))
        },
    }
}

/// The places of a list, and the first `count` more behind some steps.
pub open spec fn with_extended(
    places: Seq<PlaceModel>,
    more: Seq<PlaceModel>,
    steps: Seq<Projection>,
    count: int,
) -> Seq<PlaceModel>
    decreases count,
{
    if count <= 0 {
        places
    } else {
        with_item(
            with_extended(places, more, steps, count - 1),
            extended_place(more[count - 1], steps),
        )
    }
}

/// The place that an argument is.
pub open spec fn argument_place(arguments: Seq<OperandModel>, index: usize) -> Option<PlaceModel> {
    if index < arguments.len() {
        match arguments[index as int].value {
            OperandValueModel::Place(place) => Some(place),
            _ => None,
        }
    } else {
        None
    }
}

/// The places that the first `count` sources stand for in the caller, and
/// whether one of them is uncertain.
pub open spec fn alias_targets(
    state: StateModel,
    arguments: Seq<OperandModel>,
    sources: Seq<PlaceModel>,
    count: int,
) -> (Seq<PlaceModel>, bool)
    decreases count,
{
    if count <= 0 {
        (Seq::empty(), false)
    } else {
        let (targets, uncertain) = alias_targets(state, arguments, sources, count - 1);
        let source = sources[count - 1];
        match argument_place(arguments, source.local) {
            Some(place) => {
                let aliases = alias_places(state, place);
                (
                    with_extended(targets, aliases, source.projection, aliases.len() as int),
                    uncertain || is_uncertain(state, place),
                )
            },
            None => (targets, uncertain),
        }
    }
}

/// The places that a returned reference can lead to, and whether it can lead
/// elsewhere.
pub open spec fn returned_alias(
    known: KnowledgeModel,
    state: StateModel,
    call: CallTerminatorModel,
) -> Option<(Seq<PlaceModel>, bool)> {
    match alias_sources(known, call) {
        Some((sources, open)) => {
            let (targets, uncertain) = alias_targets(
                state,
                call.arguments,
                sources,
                sources.len() as int,
            );
            if targets.len() > 0 {
                Some((targets, open || uncertain))
            } else {
                None
            }
        },
        None => None,
    }
}

fn extend_all(places: &mut Vec<Place>, more: &Vec<Place>, steps: &Vec<Projection>)
    ensures
        views(final(places)@) == with_extended(
            views(old(places)@),
            views(more@),
            steps@,
            more@.len() as int,
        ),
{
    let ghost start = views(places@);
    let mut index: usize = 0;
    while index < more.len()
        invariant
            index <= more@.len(),
            views(places@) == with_extended(start, views(more@), steps@, index as int),
        decreases more@.len() - index,
    {
        proof {
            assert(views(more@)[index as int] == more@[index as int]@);
        }
        let place = behind_steps(&more[index], steps);
        let added = add_place(places, &place);
        index += 1;
    }
}

fn behind_steps(place: &Place, steps: &Vec<Projection>) -> (result: Place)
    ensures
        result@ == extended_place(place@, steps@),
{
    let mut result = place.clone();
    let mut index: usize = 0;
    proof {
        assert(result.projection@ =~= place@.projection + steps@.take(0));
    }
    while index < steps.len()
        invariant
            index <= steps@.len(),
            result.local == place.local,
            result.projection@ == place@.projection + steps@.take(index as int),
        decreases steps@.len() - index,
    {
        result.projection.push(steps[index]);
        proof {
            assert(steps@.take(index + 1) =~= steps@.take(index as int).push(
                steps@[index as int],
            ));
            assert(result.projection@ =~= place@.projection + steps@.take(index + 1));
        }
        index += 1;
    }
    proof {
        assert(steps@.take(steps@.len() as int) =~= steps@);
    }
    result
}

/// The places that a returned reference can lead to, and whether it can lead
/// elsewhere.
pub fn returned_call_alias(known: &CallKnowledge, state: &DynState, call: &CallTerminator) -> (
    result: Option<(Vec<Place>, bool)>)
    ensures
        match result {
            Some((targets, uncertain)) => returned_alias(known@, state@, call@) == Some(
                (views(targets@), uncertain),
            ),
            None => returned_alias(known@, state@, call@) is None,
        },
{
    let (sources, open) = match find_alias_sources(known, call) {
        Some(found) => found,
        None => {
            return None;
        },
    };
    let mut targets: Vec<Place> = Vec::new();
    let mut uncertain = false;
    let mut index: usize = 0;
    proof {
        assert(views(targets@) =~= Seq::empty());
        assert(views(sources@).len() == sources@.len());
    }
    while index < sources.len()
        invariant
            index <= sources@.len(),
            (views(targets@), uncertain) == alias_targets(
                state@,
                call@.arguments,
                views(sources@),
                index as int,
            ),
        decreases sources@.len() - index,
    {
        let source = &sources[index];
        proof {
            assert(views(sources@)[index as int] == source@);
            assert(call@.arguments.len() == call.arguments@.len());
        }
        if source.local < call.arguments.len() {
            proof {
                assert(call@.arguments[source.local as int]
                    == call.arguments@[source.local as int]@);
            }
            match operand_place(&call.arguments[source.local]) {
                Some(place) => {
                    if place_alias_is_uncertain(state, place) {
                        uncertain = true;
                    }
                    let aliases = resolve_alias_places(state, place);
                    proof {
                        assert(views(aliases@).len() == aliases@.len());
                    }
                    extend_all(&mut targets, &aliases, &source.projection);
                },
                None => {},
            }
        }
        index += 1;
    }
    proof {
        assert(views(targets@).len() == targets@.len());
    }
    if targets.len() > 0 {
        Some((targets, open || uncertain))
    } else {
        None
    }
}

/// What is known after the effects of a call on the first `count` arguments.
pub open spec fn after_effects(
    state: StateModel,
    effects: Seq<DynModel>,
    summary: SummaryModel,
    arguments: Seq<OperandModel>,
    flows: Seq<DynModel>,
    count: int,
) -> (StateModel, Seq<DynModel>)
    decreases count,
{
    if count <= 0 {
        (state, effects)
    } else {
        let (state, effects) = after_effects(
            state,
            effects,
            summary,
            arguments,
            flows,
            count - 1,
        );
        let index = count - 1;
        let effect = summary.parameter_effects[index];
        if is_nothing(effect) || index >= arguments.len() {
            (state, effects)
        } else {
            let resolved = substituted(effect, flows);
            (
                match arguments[index].value {
                    OperandValueModel::Place(place) => merged_place(state, place, resolved),
                    _ => state,
                },
                if index < flows.len() {
                    with_effect(
                        effects,
                        flows[index].parameters,
                        resolved,
                        flows[index].parameters.len() as int,
                    )
                } else {
                    effects
                },
            )
        }
    }
}

/// Whether an argument is handed over for reading only, and is dynamic.
pub open spec fn is_stored(ty: Option<TypeModel>) -> bool {
    match ty {
        Some(ty) => !ty.mutable_reference && contains_dyn(ty.text),
        None => false,
    }
}

/// Whether an argument can be written through, and is dynamic.
pub open spec fn is_store(ty: Option<TypeModel>) -> bool {
    match ty {
        Some(ty) => ty.mutable_reference && contains_dyn(ty.text),
        None => false,
    }
}

/// What stands behind those of the first `count` arguments that are handed
/// over for reading.
pub open spec fn stored_flow(
    arguments: Seq<OperandModel>,
    flows: Seq<DynModel>,
    count: int,
) -> DynModel
    decreases count,
{
    if count <= 0 {
        nothing()
    } else if is_stored(arguments[count - 1].ty) {
        joint(stored_flow(arguments, flows, count - 1), flows[count - 1])
    } else {
        stored_flow(arguments, flows, count - 1)
    }
}

/// What is known after unknown code could write through the first `count`
/// arguments.
pub open spec fn after_stores(
    state: StateModel,
    effects: Seq<DynModel>,
    arguments: Seq<OperandModel>,
    flows: Seq<DynModel>,
    stored: DynModel,
    count: int,
) -> (StateModel, Seq<DynModel>)
    decreases count,
{
    if count <= 0 {
        (state, effects)
    } else {
        let (state, effects) = after_stores(
            state,
            effects,
            arguments,
            flows,
            stored,
            count - 1,
        );
        let operand = arguments[count - 1];
        match operand.value {
            OperandValueModel::Place(place) if is_store(operand.ty) => (
                merged_place(state, place, stored),
                with_effect(
                    effects,
                    flows[count - 1].parameters,
                    stored,
                    flows[count - 1].parameters.len() as int,
                ),
            ),
            _ => (state, effects),
        }
    }
}

/// What is known after a call wrote to what its arguments lead to.
pub open spec fn after_call(
    known: KnowledgeModel,
    state: StateModel,
    effects: Seq<DynModel>,
    call: CallTerminatorModel,
    flows: Seq<DynModel>,
) -> (StateModel, Seq<DynModel>) {
    match summary_of(known, call.callee) {
        Some(summary) => after_effects(
            state,
            effects,
            summary,
            call.arguments,
            flows,
            summary.parameter_effects.len() as int,
        ),
        None => {
            let stored = stored_flow(call.arguments, flows, call.arguments.len() as int);
            if is_analyzed(known, call.callee) || is_nothing(stored) {
                (state, effects)
            } else {
                after_stores(
                    state,
                    effects,
                    call.arguments,
                    flows,
                    DynModel {
                        unresolved_reasons: with_reason(
                            stored.unresolved_reasons,
                            UnresolvedReason::ExternalCode,
                        ),
                        ..stored
                    },
                    call.arguments.len() as int,
                )
            }
        },
    }
}

fn apply_summary_effects(
    state: &mut DynState,
    caller_effects: &mut Vec<DynFlow>,
    summary: &DynSummary,
    arguments: &Vec<Operand>,
    flows: &Vec<DynFlow>,
)
    ensures
        (final(state)@, views(final(caller_effects)@)) == after_effects(
            old(state)@,
            views(old(caller_effects)@),
            summary@,
            views(arguments@),
            views(flows@),
            summary@.parameter_effects.len() as int,
        ),
{
    let ghost start = state@;
    let ghost effects = views(caller_effects@);
    let mut index: usize = 0;
    proof {
        assert(summary@.parameter_effects.len() == summary.parameter_effects@.len());
        assert(views(arguments@).len() == arguments@.len());
        assert(views(flows@).len() == flows@.len());
    }
    while index < summary.parameter_effects.len()
        invariant
            index <= summary.parameter_effects@.len(),
            views(arguments@).len() == arguments@.len(),
            views(flows@).len() == flows@.len(),
            (state@, views(caller_effects@)) == after_effects(
                start,
                effects,
                summary@,
                views(arguments@),
                views(flows@),
                index as int,
            ),
        decreases summary.parameter_effects@.len() - index,
    {
        let effect = &summary.parameter_effects[index];
        proof {
            assert(summary@.parameter_effects[index as int] == effect@);
        }
        if !effect.is_empty() && index < arguments.len() {
            let resolved = resolve_symbolic_flow(effect, flows);
            proof {
                assert(views(arguments@)[index as int] == arguments@[index as int]@);
            }
            match operand_place(&arguments[index]) {
                Some(place) => {
                    merge_dyn_place(state, place, &resolved);
                },
                None => {},
            }
            if index < flows.len() {
                proof {
                    assert(views(flows@)[index as int] == flows@[index as int]@);
                }
                propagate_region_effect(&flows[index], &resolved, caller_effects);
            }
        }
        index += 1;
    }
}

fn find_stored_flow(arguments: &Vec<Operand>, flows: &Vec<DynFlow>) -> (result: DynFlow)
    requires
        arguments@.len() == flows@.len(),
    ensures
        result@ == stored_flow(views(arguments@), views(flows@), arguments@.len() as int),
{
    let mut stored = DynFlow::empty();
    let mut index: usize = 0;
    while index < arguments.len()
        invariant
            index <= arguments@.len(),
            arguments@.len() == flows@.len(),
            stored@ == stored_flow(views(arguments@), views(flows@), index as int),
        decreases arguments@.len() - index,
    {
        proof {
            assert(views(arguments@)[index as int] == arguments@[index as int]@);
            assert(views(flows@)[index as int] == flows@[index as int]@);
        }
        let reads = match &arguments[index].ty {
            Some(ty) => !ty.mutable_reference && type_contains_dyn(ty),
            None => false,
        };
        if reads {
            let changed = stored.merge(&flows[index]);
        }
        index += 1;
    }
    stored
}

fn apply_stores(
    state: &mut DynState,
    caller_effects: &mut Vec<DynFlow>,
    arguments: &Vec<Operand>,
    flows: &Vec<DynFlow>,
    stored: &DynFlow,
)
    requires
        arguments@.len() == flows@.len(),
    ensures
        (final(state)@, views(final(caller_effects)@)) == after_stores(
            old(state)@,
            views(old(caller_effects)@),
            views(arguments@),
            views(flows@),
            stored@,
            arguments@.len() as int,
        ),
{
    let ghost start = state@;
    let ghost effects = views(caller_effects@);
    let mut index: usize = 0;
    while index < arguments.len()
        invariant
            index <= arguments@.len(),
            arguments@.len() == flows@.len(),
            (state@, views(caller_effects@)) == after_stores(
                start,
                effects,
                views(arguments@),
                views(flows@),
                stored@,
                index as int,
            ),
        decreases arguments@.len() - index,
    {
        proof {
            assert(views(arguments@)[index as int] == arguments@[index as int]@);
            assert(views(flows@)[index as int] == flows@[index as int]@);
        }
        let writes = match &arguments[index].ty {
            Some(ty) => ty.mutable_reference && type_contains_dyn(ty),
            None => false,
        };
        match operand_place(&arguments[index]) {
            Some(place) => {
                if writes {
                    merge_dyn_place(state, place, stored);
                    propagate_region_effect(&flows[index], stored, caller_effects);
                }
            },
            None => {},
        }
        index += 1;
    }
}

/// Writes what a call writes to what its arguments lead to. A call whose
/// summary may still come writes nothing yet.
pub fn apply_call_memory_effects(
    known: &CallKnowledge,
    state: &mut DynState,
    caller_effects: &mut Vec<DynFlow>,
    call: &CallTerminator,
    flows: &Vec<DynFlow>,
)
    requires
        call.arguments@.len() == flows@.len(),
    ensures
        (final(state)@, views(final(caller_effects)@)) == after_call(
            known@,
            old(state)@,
            views(old(caller_effects)@),
            call@,
            views(flows@),
        ),
{
    proof {
        assert(views(call.arguments@).len() == call.arguments@.len());
    }
    match find_summary(known, call.callee) {
        Some(summary) => {
            apply_summary_effects(state, caller_effects, summary, &call.arguments, flows);
        },
        None => {
            if callee_is_analyzed(known, call.callee) {
                return ;
            }
            let mut stored = find_stored_flow(&call.arguments, flows);
            if stored.is_empty() {
                return ;
            }
            let added = add_reason(
                &mut stored.unresolved_reasons,
                UnresolvedReason::ExternalCode,
            );
            apply_stores(state, caller_effects, &call.arguments, flows, &stored);
        },
    }
}

} // verus!
