//! Function instances, specialized for the concrete types that reach their
//! parameters.
use crate::lists::{copy_list, place_of, value_of, views};
use crate::model::UnresolvedReason;
use crate::rust::contexts::{
    all_contexts, contexts_are_there, covering_leaves_fewer, in_either, lists_are_there, lists_of,
    uncovered, unvisited, visits_leave_fewer,
};
use crate::rust::flows::{
    added_reasons_are_ordered, all_reasons, key_in_context, ordered_reasons_are_sublists,
    specialized_key, sublists, NamedDynFlow, NamedModel,
};
use crate::rust::labels::{
    instance_display, instance_key, normalize_instance_display, normalize_instance_key,
    normalize_type_display, type_display,
};
use crate::rust::mir::ConcreteModel;
use crate::rust::provenance::{
    joint, nothing, resolve_symbolic_flow, substituted, substituted_to, unresolved_flow,
    with_concretes, DynFlow, DynModel,
};
use crate::rust::raw::{
    find_function, function_of_key, keys_stand_for_functions, DispatchTable, RawCallModel,
    RawModel, RawSemanticCall, RawSemanticCallTarget, RawSemanticFunction, RawTargetModel,
    TableModel,
};
use crate::rust::respecialize::{
    add_candidate, find_uncovered, first_uncovered, uncovered_is_one, with_instance,
};
use crate::rust::semantic::{
    copy_numbers, FlowModel, InstanceModel, SemanticCall, SemanticCallModel, SemanticCallTarget,
    SemanticDispatchCandidate, SemanticDynFlow, SemanticFunction, SemanticModel,
    SemanticTargetModel,
};
use crate::model::copy_reasons;
use crate::sets::{add_text, reasons_in_order, with_texts};
use crate::text::{comes_before, contains, contains_text, copy_texts, text_less, texts};
use vstd::prelude::*;

verus! {

/// The place of a text in an ordered list, behind those that are not after it.
pub open spec fn place_in_order(values: Seq<Seq<char>>, value: Seq<char>, index: nat) -> nat
    decreases values.len() - index,
{
    if index < values.len() && !text_less(value, values[index as int]) {
        place_in_order(values, value, index + 1)
    } else {
        index
    }
}

/// The first `count` texts in order.
pub open spec fn in_order(values: Seq<Seq<char>>, count: int) -> Seq<Seq<char>>
    decreases count,
{
    if count <= 0 {
        Seq::empty()
    } else {
        let before = in_order(values, count - 1);
        before.insert(place_in_order(before, values[count - 1], 0) as int, values[count - 1])
    }
}

/// The names of types.
pub open spec fn type_names(concrete: Seq<ConcreteModel>) -> Seq<Seq<char>> {
    concrete.map_values(|ty: ConcreteModel| ty.name)
}

/// The flow of a parameter as it stands in keys.
pub open spec fn named_flow(flow: DynModel) -> NamedModel {
    NamedModel {
        concrete_types: in_order(type_names(flow.concrete), flow.concrete.len() as int),
        unresolved_reasons: flow.unresolved_reasons,
    }
}

/// The flows of a context as they stand in keys.
pub open spec fn named_context(context: Seq<DynModel>) -> Seq<NamedModel> {
    context.map_values(|flow: DynModel| named_flow(flow))
}

/// The key of a function in a context.
pub open spec fn key_of(function: RawModel, context: Seq<DynModel>) -> Seq<char> {
    key_in_context(function.key, function.parameter_types, named_context(context))
}

fn name_flow(flow: &DynFlow) -> (result: NamedDynFlow)
    ensures
        result@ == named_flow(flow@),
{
    let mut names: Vec<String> = Vec::new();
    let mut index: usize = 0;
    proof {
        assert(texts(names@) =~= Seq::empty());
        assert(flow@.concrete.len() == flow.concrete@.len());
    }
    while index < flow.concrete.len()
        invariant
            index <= flow.concrete@.len(),
            texts(names@) == in_order(type_names(flow@.concrete), index as int),
        decreases flow.concrete@.len() - index,
    {
        let name = &flow.concrete[index].name;
        let ghost before = texts(names@);
        proof {
            assert(flow@.concrete[index as int] == flow.concrete@[index as int]@);
            assert(type_names(flow@.concrete)[index as int] == name@);
        }
        let mut place: usize = 0;
        while place < names.len() && !comes_before(name.as_str(), names[place].as_str())
            invariant
                place <= names@.len(),
                before == texts(names@),
                place_in_order(before, name@, place as nat) == place_in_order(before, name@, 0),
            decreases names@.len() - place,
        {
            proof {
                assert(before[place as int] == names@[place as int]@);
            }
            place += 1;
        }
        proof {
            if place < names@.len() {
                assert(before[place as int] == names@[place as int]@);
            }
        }
        names.insert(place, name.clone());
        proof {
            assert(texts(names@) =~= before.insert(place as int, name@));
        }
        index += 1;
    }
    NamedDynFlow { concrete_types: names, unresolved_reasons: copy_reasons(&flow.unresolved_reasons) }
}

/// The key of a function in a context.
pub fn specialized_function_key(function: &RawSemanticFunction, context: &Vec<DynFlow>) -> (result:
    String)
    ensures
        result@ == key_of(function@, views(context@)),
{
    let mut named: Vec<NamedDynFlow> = Vec::new();
    let mut index: usize = 0;
    while index < context.len()
        invariant
            index <= context@.len(),
            named@.len() == index,
            forall|k: int| 0 <= k < index ==> (#[trigger] named@[k])@ == named_flow(context@[k]@),
        decreases context@.len() - index,
    {
        named.push(name_flow(&context[index]));
        index += 1;
    }
    proof {
        assert(views(named@) =~= named_context(views(context@)));
    }
    specialized_key(function.key.as_str(), &function.parameter_types, &named)
}

/// Whether the values of a parameter flow into what a call is handed.
pub open spec fn call_uses(call: RawCallModel, parameter: usize) -> bool {
    (exists|index: int|
        0 <= index < call.argument_flows.len() && (
        #[trigger] call.argument_flows[index]).parameters.contains(parameter)) || (match call.target {
        RawTargetModel::Dynamic { receiver, .. } => receiver.parameters.contains(parameter),
        _ => false,
    })
}

/// Whether the values of a parameter flow into what a function calls.
pub open spec fn function_uses(function: RawModel, parameter: usize) -> bool {
    exists|index: int|
        0 <= index < function.calls.len() && call_uses(#[trigger] function.calls[index], parameter)
}

fn has_number(numbers: &Vec<usize>, number: usize) -> (result: bool)
    ensures
        result == numbers@.contains(number),
{
    let mut index: usize = 0;
    while index < numbers.len()
        invariant
            index <= numbers@.len(),
            forall|k: int| 0 <= k < index ==> numbers@[k] != number,
        decreases numbers@.len() - index,
    {
        if numbers[index] == number {
            return true;
        }
        index += 1;
    }
    false
}

fn call_uses_parameter(call: &RawSemanticCall, parameter: usize) -> (result: bool)
    ensures
        result == call_uses(call@, parameter),
{
    let mut index: usize = 0;
    while index < call.argument_flows.len()
        invariant
            index <= call.argument_flows@.len(),
            forall|k: int|
                0 <= k < index ==> !(#[trigger] call@.argument_flows[k]).parameters.contains(
                    parameter,
                ),
        decreases call.argument_flows@.len() - index,
    {
        proof {
            assert(call@.argument_flows[index as int] == call.argument_flows@[index as int]@);
        }
        if has_number(&call.argument_flows[index].parameters, parameter) {
            return true;
        }
        index += 1;
    }
    match &call.target {
        RawSemanticCallTarget::Dynamic { receiver, .. } => has_number(
            &receiver.parameters,
            parameter,
        ),
        _ => false,
    }
}

/// Whether the values of a parameter flow into what a function calls.
pub fn raw_function_uses_dyn_parameter(function: &RawSemanticFunction, parameter: usize) -> (result:
    bool)
    ensures
        result == function_uses(function@, parameter),
{
    let mut index: usize = 0;
    while index < function.calls.len()
        invariant
            index <= function.calls@.len(),
            forall|k: int| 0 <= k < index ==> !call_uses(#[trigger] function@.calls[k], parameter),
        decreases function.calls@.len() - index,
    {
        proof {
            assert(function@.calls[index as int] == function.calls@[index as int]@);
        }
        if call_uses_parameter(&function.calls[index], parameter) {
            return true;
        }
        index += 1;
    }
    false
}

/// Whether the values of a parameter matter for what a function calls.
pub open spec fn matters(function: RawModel, parameter: int) -> bool {
    contains(function.parameter_types[parameter], "dyn "@) || function_uses(
        function,
        parameter as usize,
    )
}

fn parameter_is_dynamic(function: &RawSemanticFunction, parameter: usize) -> (result: bool)
    requires
        parameter < function.parameter_types@.len(),
    ensures
        result == matters(function@, parameter as int),
{
    proof {
        assert(function@.parameter_types[parameter as int]
            == function.parameter_types@[parameter as int]@);
    }
    contains_text(function.parameter_types[parameter].as_str(), "dyn ")
        || raw_function_uses_dyn_parameter(function, parameter)
}

/// The context of a function that nobody is known to call: its callers can
/// hand it anything.
pub open spec fn root_context(function: RawModel) -> Seq<DynModel> {
    Seq::new(
        function.parameter_types.len(),
        |index: int|
            if matters(function, index) {
                unresolved_flow(UnresolvedReason::OpaqueInput)
            } else {
                nothing()
            },
    )
}

/// The context of a function that nobody is known to call.
pub fn root_dyn_context(function: &RawSemanticFunction) -> (result: Vec<DynFlow>)
    ensures
        views(result@) == root_context(function@),
{
    let mut result: Vec<DynFlow> = Vec::new();
    let mut index: usize = 0;
    while index < function.parameter_types.len()
        invariant
            index <= function.parameter_types@.len(),
            result@.len() == index,
            forall|k: int|
                0 <= k < index ==> (#[trigger] result@[k])@ == root_context(function@)[k],
        decreases function.parameter_types@.len() - index,
    {
        if parameter_is_dynamic(function, index) {
            result.push(DynFlow::unresolved(UnresolvedReason::OpaqueInput));
        } else {
            result.push(DynFlow::empty());
        }
        index += 1;
    }
    proof {
        assert(views(result@) =~= root_context(function@));
    }
    result
}

/// What a flow holds in a context: concrete types, each once, and reasons.
pub open spec fn flow_in_context(flow: DynModel, context: Seq<DynModel>) -> DynModel {
    DynModel { parameters: Seq::empty(), ..joint(nothing(), substituted(flow, context)) }
}

/// What a flow holds in a context.
pub fn resolve_context_flow(flow: &DynFlow, context: &Vec<DynFlow>) -> (result: DynFlow)
    ensures
        result@ == flow_in_context(flow@, views(context@)),
{
    let mut result = DynFlow::empty();
    let changed = result.merge(&resolve_symbolic_flow(flow, context));
    result.parameters = Vec::new();
    proof {
        assert(result@.parameters =~= Seq::empty());
    }
    result
}

/// What an argument hands on: where nothing is known of it, that is a limit of
/// the analysis.
pub open spec fn argument_in_context(flow: DynModel, context: Seq<DynModel>) -> DynModel {
    let resolved = flow_in_context(flow, context);
    if resolved.concrete.len() == 0 && resolved.unresolved_reasons.len() == 0 {
        unresolved_flow(UnresolvedReason::AnalysisLimit)
    } else {
        resolved
    }
}

/// The context that a call gives its callee.
pub open spec fn call_context(
    callee: RawModel,
    arguments: Seq<DynModel>,
    context: Seq<DynModel>,
) -> Seq<DynModel> {
    Seq::new(
        callee.parameter_types.len(),
        |index: int|
            if !matters(callee, index) {
                nothing()
            } else if index < arguments.len() {
                argument_in_context(arguments[index], context)
            } else {
                unresolved_flow(UnresolvedReason::AnalysisLimit)
            },
    )
}

/// The context that a call gives its callee.
pub fn call_dyn_context(
    callee: &RawSemanticFunction,
    arguments: &Vec<DynFlow>,
    caller_context: &Vec<DynFlow>,
) -> (result: Vec<DynFlow>)
    ensures
        views(result@) == call_context(callee@, views(arguments@), views(caller_context@)),
{
    let mut result: Vec<DynFlow> = Vec::new();
    let mut index: usize = 0;
    while index < callee.parameter_types.len()
        invariant
            index <= callee.parameter_types@.len(),
            result@.len() == index,
            forall|k: int|
                0 <= k < index ==> (#[trigger] result@[k])@ == call_context(
                    callee@,
                    views(arguments@),
                    views(caller_context@),
                )[k],
        decreases callee.parameter_types@.len() - index,
    {
        if !parameter_is_dynamic(callee, index) {
            result.push(DynFlow::empty());
        } else if index < arguments.len() {
            proof {
                assert(views(arguments@)[index as int] == arguments@[index as int]@);
            }
            let resolved = resolve_context_flow(&arguments[index], caller_context);
            proof {
                assert(resolved@.concrete.len() == resolved.concrete@.len());
            }
            if resolved.concrete.len() == 0 && resolved.unresolved_reasons.len() == 0 {
                result.push(DynFlow::unresolved(UnresolvedReason::AnalysisLimit));
            } else {
                result.push(resolved);
            }
        } else {
            result.push(DynFlow::unresolved(UnresolvedReason::AnalysisLimit));
        }
        index += 1;
    }
    proof {
        assert(views(result@) =~= call_context(
            callee@,
            views(arguments@),
            views(caller_context@),
        ));
    }
    result
}

/// The names of types as they are shown.
pub open spec fn shown_types(concrete: Seq<ConcreteModel>, crate_name: Seq<char>) -> Seq<Seq<char>> {
    concrete.map_values(|ty: ConcreteModel| type_display(ty.name, crate_name))
}

/// A flow as it is reported.
pub open spec fn shown_flow(flow: DynModel, crate_name: Seq<char>) -> FlowModel {
    FlowModel {
        concrete_types: with_texts(
            Seq::empty(),
            shown_types(flow.concrete, crate_name),
            flow.concrete.len() as int,
        ),
        parameters: flow.parameters,
        unresolved_reasons: flow.unresolved_reasons,
    }
}

/// A flow as it is reported.
pub fn semantic_dyn_flow(flow: &DynFlow, crate_name: &str) -> (result: SemanticDynFlow)
    ensures
        result@ == shown_flow(flow@, crate_name@),
{
    let mut concrete_types: Vec<String> = Vec::new();
    let mut index: usize = 0;
    proof {
        assert(texts(concrete_types@) =~= Seq::empty());
        assert(flow@.concrete.len() == flow.concrete@.len());
    }
    while index < flow.concrete.len()
        invariant
            index <= flow.concrete@.len(),
            texts(concrete_types@) == with_texts(
                Seq::empty(),
                shown_types(flow@.concrete, crate_name@),
                index as int,
            ),
        decreases flow.concrete@.len() - index,
    {
        proof {
            assert(flow@.concrete[index as int] == flow.concrete@[index as int]@);
            assert(shown_types(flow@.concrete, crate_name@)[index as int] == type_display(
                flow.concrete@[index as int].name@,
                crate_name@,
            ));
        }
        add_text(
            &mut concrete_types,
            normalize_type_display(flow.concrete[index].name.as_str(), crate_name),
        );
        index += 1;
    }
    SemanticDynFlow {
        concrete_types,
        parameters: copy_numbers(&flow.parameters),
        unresolved_reasons: copy_reasons(&flow.unresolved_reasons),
    }
}

/// Flows as they are reported.
pub open spec fn shown_flows(flows: Seq<DynModel>, crate_name: Seq<char>) -> Seq<FlowModel> {
    flows.map_values(|flow: DynModel| shown_flow(flow, crate_name))
}

fn show_flows(flows: &Vec<DynFlow>, crate_name: &str) -> (result: Vec<SemanticDynFlow>)
    ensures
        views(result@) == shown_flows(views(flows@), crate_name@),
{
    let mut result: Vec<SemanticDynFlow> = Vec::new();
    let mut index: usize = 0;
    while index < flows.len()
        invariant
            index <= flows@.len(),
            result@.len() == index,
            forall|k: int|
                0 <= k < index ==> (#[trigger] result@[k])@ == shown_flow(
                    flows@[k]@,
                    crate_name@,
                ),
        decreases flows@.len() - index,
    {
        result.push(semantic_dyn_flow(&flows[index], crate_name));
        index += 1;
    }
    proof {
        assert(views(result@) =~= shown_flows(views(flows@), crate_name@));
    }
    result
}

/// A function that is to be specialized, and the context for it.
pub struct PendingInstance {
    pub function: usize,
    pub context: Vec<DynFlow>,
}

impl View for PendingInstance {
    type V = (int, Seq<DynModel>);

    open spec fn view(&self) -> (int, Seq<DynModel>) {
        (self.function as int, views(self.context@))
    }
}

/// The method that a dynamic call reaches for a type.
pub open spec fn dispatched(table: TableModel, dispatch: usize, concrete: usize) -> Option<
    Seq<char>,
> {
    value_of(table.entries, (dispatch, concrete))
}

fn find_dispatched<'a>(table: &'a DispatchTable, dispatch: usize, concrete: usize) -> (result:
    Option<&'a String>)
    ensures
        match result {
            Some(name) => dispatched(table@, dispatch, concrete) == Some(name@),
            None => dispatched(table@, dispatch, concrete) is None,
        },
{
    let mut index: usize = 0;
    let ghost entries = table@.entries;
    while index < table.entries.len()
        invariant
            index <= table.entries@.len(),
            entries == table@.entries,
            place_of(entries, (dispatch, concrete), index as int) == place_of(
                entries,
                (dispatch, concrete),
                0,
            ),
        decreases table.entries@.len() - index,
    {
        proof {
            assert(entries[index as int] == table.entries@[index as int]@);
        }
        let entry = &table.entries[index];
        if entry.dispatch == dispatch && entry.concrete == concrete {
            return Some(&entry.candidate);
        }
        index += 1;
    }
    None
}

/// A candidate of a dynamic call, and the function that is to be specialized
/// for it.
pub open spec fn candidate_of(
    functions: Seq<RawModel>,
    table: TableModel,
    name: Seq<char>,
    arguments: Seq<DynModel>,
    context: Seq<DynModel>,
) -> (InstanceModel, Seq<(int, Seq<DynModel>)>) {
    let display = instance_display(name, table.crate_name);
    match function_of_key(functions, instance_key(name)) {
        Some(index) => {
            let target = call_context(functions[index], arguments, context);
            (InstanceModel { key: key_of(functions[index], target), display }, seq![(index, target)])
        },
        None => (InstanceModel { key: instance_key(name), display }, Seq::empty()),
    }
}

/// The candidates of a dynamic call for the first `count` types, and the
/// functions that are to be specialized for them.
pub open spec fn candidates_for(
    functions: Seq<RawModel>,
    table: TableModel,
    dispatch: usize,
    concrete: Seq<ConcreteModel>,
    arguments: Seq<DynModel>,
    context: Seq<DynModel>,
    count: int,
) -> (Seq<InstanceModel>, Seq<(int, Seq<DynModel>)>)
    decreases count,
{
    if count <= 0 {
        (Seq::empty(), Seq::empty())
    } else {
        let (candidates, pending) = candidates_for(
            functions,
            table,
            dispatch,
            concrete,
            arguments,
            context,
            count - 1,
        );
        match dispatched(table, dispatch, concrete[count - 1].id) {
            Some(name) => {
                let (candidate, more) = candidate_of(functions, table, name, arguments, context);
                (with_instance(candidates, candidate), pending + more)
            },
            None => (candidates, pending),
        }
    }
}

fn find_candidate(
    functions: &Vec<RawSemanticFunction>,
    table: &DispatchTable,
    name: &str,
    arguments: &Vec<DynFlow>,
    context: &Vec<DynFlow>,
) -> (result: (SemanticDispatchCandidate, Vec<PendingInstance>))
    ensures
        (result.0@, views(result.1@)) == candidate_of(
            views(functions@),
            table@,
            name@,
            views(arguments@),
            views(context@),
        ),
{
    let mut pending: Vec<PendingInstance> = Vec::new();
    proof {
        assert(views(pending@) =~= Seq::empty());
    }
    let display = normalize_instance_display(name, table.crate_name.as_str());
    let key = normalize_instance_key(name);
    match find_function(functions, key.as_str()) {
        Some(index) => {
            proof {
                assert(views(functions@)[index as int] == functions@[index as int]@);
            }
            let target = call_dyn_context(&functions[index], arguments, context);
            let specialized = specialized_function_key(&functions[index], &target);
            let item = PendingInstance { function: index, context: target };
            let ghost model = item@;
            pending.push(item);
            proof {
                assert(views(pending@) =~= seq![model]);
            }
            (SemanticDispatchCandidate { key: specialized, display }, pending)
        },
        None => (SemanticDispatchCandidate { key, display }, pending),
    }
}

fn find_candidates(
    functions: &Vec<RawSemanticFunction>,
    table: &DispatchTable,
    dispatch: usize,
    receiver: &DynFlow,
    arguments: &Vec<DynFlow>,
    context: &Vec<DynFlow>,
) -> (result: (Vec<SemanticDispatchCandidate>, Vec<PendingInstance>))
    ensures
        (views(result.0@), views(result.1@)) == candidates_for(
            views(functions@),
            table@,
            dispatch,
            receiver@.concrete,
            views(arguments@),
            views(context@),
            receiver@.concrete.len() as int,
        ),
{
    let mut candidates: Vec<SemanticDispatchCandidate> = Vec::new();
    let mut pending: Vec<PendingInstance> = Vec::new();
    let mut index: usize = 0;
    proof {
        assert(views(candidates@) =~= Seq::empty());
        assert(views(pending@) =~= Seq::empty());
        assert(receiver@.concrete.len() == receiver.concrete@.len());
    }
    while index < receiver.concrete.len()
        invariant
            index <= receiver.concrete@.len(),
            (views(candidates@), views(pending@)) == candidates_for(
                views(functions@),
                table@,
                dispatch,
                receiver@.concrete,
                views(arguments@),
                views(context@),
                index as int,
            ),
        decreases receiver.concrete@.len() - index,
    {
        let ghost waiting = views(pending@);
        proof {
            assert(receiver@.concrete[index as int] == receiver.concrete@[index as int]@);
        }
        match find_dispatched(table, dispatch, receiver.concrete[index].id) {
            Some(name) => {
                let (candidate, mut more) = find_candidate(
                    functions,
                    table,
                    name.as_str(),
                    arguments,
                    context,
                );
                let ghost added = views(more@);
                add_candidate(&mut candidates, candidate);
                pending.append(&mut more);
                proof {
                    assert(views(pending@) =~= waiting + added);
                }
            },
            None => {},
        }
        index += 1;
    }
    (candidates, pending)
}

/// What a call reaches in a context, and the functions that are to be
/// specialized for it.
pub open spec fn target_in_context(
    functions: Seq<RawModel>,
    table: TableModel,
    call: RawCallModel,
    context: Seq<DynModel>,
) -> (SemanticTargetModel, Seq<(int, Seq<DynModel>)>) {
    match call.target {
        RawTargetModel::Direct { key, display } => match function_of_key(functions, key) {
            Some(index) => {
                let target = call_context(functions[index], call.argument_flows, context);
                (
                    SemanticTargetModel::Direct { key: key_of(functions[index], target), display },
                    seq![(index, target)],
                )
            },
            None => (SemanticTargetModel::Direct { key, display }, Seq::empty()),
        },
        RawTargetModel::Dynamic { dispatch, key, display, receiver } => {
            let resolved = flow_in_context(receiver, context);
            let (candidates, pending) = candidates_for(
                functions,
                table,
                dispatch,
                resolved.concrete,
                call.argument_flows,
                context,
                resolved.concrete.len() as int,
            );
            (
                SemanticTargetModel::Dynamic {
                    key,
                    display,
                    candidates,
                    open: resolved.unresolved_reasons.len() > 0,
                    unresolved_reasons: resolved.unresolved_reasons,
                    receiver_flow: shown_flow(receiver, table.crate_name),
                },
                pending,
            )
        },
        RawTargetModel::Indirect { signature } => (
            SemanticTargetModel::Indirect { signature },
            Seq::empty(),
        ),
        RawTargetModel::Unresolved => (SemanticTargetModel::Unresolved, Seq::empty()),
    }
}

fn find_target(
    functions: &Vec<RawSemanticFunction>,
    table: &DispatchTable,
    call: &RawSemanticCall,
    context: &Vec<DynFlow>,
) -> (result: (SemanticCallTarget, Vec<PendingInstance>))
    ensures
        (result.0@, views(result.1@)) == target_in_context(
            views(functions@),
            table@,
            call@,
            views(context@),
        ),
{
    let mut pending: Vec<PendingInstance> = Vec::new();
    proof {
        assert(views(pending@) =~= Seq::empty());
    }
    match &call.target {
        RawSemanticCallTarget::Direct { key, display } => match find_function(
            functions,
            key.as_str(),
        ) {
            Some(index) => {
                proof {
                    assert(views(functions@)[index as int] == functions@[index as int]@);
                }
                let target = call_dyn_context(&functions[index], &call.argument_flows, context);
                let specialized = specialized_function_key(&functions[index], &target);
                let item = PendingInstance { function: index, context: target };
                let ghost model = item@;
                pending.push(item);
                proof {
                    assert(views(pending@) =~= seq![model]);
                }
                (
                    SemanticCallTarget::Direct { key: specialized, display: display.clone() },
                    pending,
                )
            },
            None => (
                SemanticCallTarget::Direct { key: key.clone(), display: display.clone() },
                pending,
            ),
        },
        RawSemanticCallTarget::Dynamic { dispatch, key, display, receiver } => {
            let receiver_flow = semantic_dyn_flow(receiver, table.crate_name.as_str());
            let resolved = resolve_context_flow(receiver, context);
            let (candidates, waiting) = find_candidates(
                functions,
                table,
                *dispatch,
                &resolved,
                &call.argument_flows,
                context,
            );
            let open = resolved.unresolved_reasons.len() > 0;
            (
                SemanticCallTarget::Dynamic {
                    key: key.clone(),
                    display: display.clone(),
                    candidates,
                    open,
                    unresolved_reasons: resolved.unresolved_reasons,
                    receiver_flow,
                },
                waiting,
            )
        },
        RawSemanticCallTarget::Indirect { signature } => (
            SemanticCallTarget::Indirect { signature: signature.clone() },
            pending,
        ),
        RawSemanticCallTarget::Unresolved => (SemanticCallTarget::Unresolved, pending),
    }
}

/// A call in a context.
pub open spec fn call_in_context(
    functions: Seq<RawModel>,
    table: TableModel,
    call: RawCallModel,
    context: Seq<DynModel>,
) -> SemanticCallModel {
    SemanticCallModel {
        target: target_in_context(functions, table, call, context).0,
        definition_name: call.definition_name,
        span: call.span,
        argument_types: call.argument_types,
        argument_flows: shown_flows(call.argument_flows, table.crate_name),
    }
}

/// The first `count` calls of a function in a context, and the functions that
/// are to be specialized for them.
pub open spec fn calls_in_context(
    functions: Seq<RawModel>,
    table: TableModel,
    calls: Seq<RawCallModel>,
    context: Seq<DynModel>,
    count: int,
) -> (Seq<SemanticCallModel>, Seq<(int, Seq<DynModel>)>)
    decreases count,
{
    if count <= 0 {
        (Seq::empty(), Seq::empty())
    } else {
        let (before, pending) = calls_in_context(functions, table, calls, context, count - 1);
        (
            before.push(call_in_context(functions, table, calls[count - 1], context)),
            pending + target_in_context(functions, table, calls[count - 1], context).1,
        )
    }
}

fn find_calls(
    functions: &Vec<RawSemanticFunction>,
    table: &DispatchTable,
    calls: &Vec<RawSemanticCall>,
    context: &Vec<DynFlow>,
) -> (result: (Vec<SemanticCall>, Vec<PendingInstance>))
    ensures
        (views(result.0@), views(result.1@)) == calls_in_context(
            views(functions@),
            table@,
            views(calls@),
            views(context@),
            calls@.len() as int,
        ),
{
    let mut result: Vec<SemanticCall> = Vec::new();
    let mut pending: Vec<PendingInstance> = Vec::new();
    let mut index: usize = 0;
    proof {
        assert(views(result@) =~= Seq::empty());
        assert(views(pending@) =~= Seq::empty());
    }
    while index < calls.len()
        invariant
            index <= calls@.len(),
            (views(result@), views(pending@)) == calls_in_context(
                views(functions@),
                table@,
                views(calls@),
                views(context@),
                index as int,
            ),
        decreases calls@.len() - index,
    {
        let ghost before = views(result@);
        let ghost waiting = views(pending@);
        let raw = &calls[index];
        proof {
            assert(views(calls@)[index as int] == raw@);
        }
        let (target, mut more) = find_target(functions, table, raw, context);
        let ghost added = views(more@);
        let call = SemanticCall {
            target,
            definition_name: raw.definition_name.clone(),
            span: raw.span.clone(),
            argument_types: copy_texts(&raw.argument_types),
            argument_flows: show_flows(&raw.argument_flows, table.crate_name.as_str()),
        };
        let ghost model = call@;
        result.push(call);
        pending.append(&mut more);
        proof {
            assert(model =~= call_in_context(views(functions@), table@, raw@, views(context@)));
            assert(views(result@) =~= before.push(model));
            assert(views(pending@) =~= waiting + added);
        }
        index += 1;
    }
    (result, pending)
}

/// A function in a context.
pub open spec fn function_in_context(
    functions: Seq<RawModel>,
    table: TableModel,
    function: RawModel,
    context: Seq<DynModel>,
) -> SemanticModel {
    SemanticModel {
        base_key: function.key,
        key: key_of(function, context),
        display: function.display,
        definition_name: function.definition_name,
        body_span: function.body_span,
        calls: calls_in_context(
            functions,
            table,
            function.calls,
            context,
            function.calls.len() as int,
        ).0,
        constructor_spans: function.constructor_spans,
        constructor_names: function.constructor_names,
        parameter_types: function.parameter_types,
    }
}

/// How far specialization has come.
#[verifier::ext_equal]
pub struct ExpansionModel {
    /// The functions that are to be specialized, with their contexts.
    pub pending: Seq<(int, Seq<DynModel>)>,
    /// The keys of the instances that are there.
    pub visited: Seq<Seq<char>>,
    /// The functions that were taken up.
    pub covered: Seq<usize>,
    pub functions: Seq<SemanticModel>,
}

/// How far specialization has come.
pub struct Expansion {
    pub pending: Vec<PendingInstance>,
    pub visited: Vec<String>,
    pub covered: Vec<usize>,
    pub functions: Vec<SemanticFunction>,
}

impl View for Expansion {
    type V = ExpansionModel;

    open spec fn view(&self) -> ExpansionModel {
        ExpansionModel {
            pending: views(self.pending@),
            visited: texts(self.visited@),
            covered: self.covered@,
            functions: views(self.functions@),
        }
    }
}

/// The function that is specialized next, with its context: the first that is
/// pending, else the first that was not taken up.
pub open spec fn next_item(functions: Seq<RawModel>, work: ExpansionModel) -> Option<
    (int, Seq<DynModel>),
> {
    if work.pending.len() > 0 {
        Some(work.pending[0])
    } else {
        match first_uncovered(work.covered, functions.len() as int, 0) {
            Some(index) => Some((index, root_context(functions[index]))),
            None => None,
        }
    }
}

/// What comes of a function that is taken up.
pub open spec fn taken_up(
    functions: Seq<RawModel>,
    table: TableModel,
    work: ExpansionModel,
    item: (int, Seq<DynModel>),
) -> ExpansionModel {
    let function = functions[item.0];
    let key = key_of(function, item.1);
    let covered = work.covered.push(item.0 as usize);
    if work.visited.contains(key) {
        ExpansionModel { covered, ..work }
    } else {
        ExpansionModel {
            pending: work.pending + calls_in_context(
                functions,
                table,
                function.calls,
                item.1,
                function.calls.len() as int,
            ).1,
            visited: work.visited.push(key),
            covered,
            functions: work.functions.push(
                function_in_context(functions, table, function, item.1),
            ),
        }
    }
}

/// The work without its first pending function.
pub open spec fn without_first(work: ExpansionModel) -> ExpansionModel {
    ExpansionModel {
        pending: if work.pending.len() > 0 {
            work.pending.skip(1)
        } else {
            work.pending
        },
        ..work
    }
}

/// One step of specialization.
pub open spec fn step(functions: Seq<RawModel>, table: TableModel, work: ExpansionModel) -> ExpansionModel {
    match next_item(functions, work) {
        None => work,
        Some(item) => taken_up(functions, table, without_first(work), item),
    }
}

/// How far specialization has come after `count` steps.
pub open spec fn steps(
    functions: Seq<RawModel>,
    table: TableModel,
    start: ExpansionModel,
    count: nat,
) -> ExpansionModel
    decreases count,
{
    if count == 0 {
        start
    } else {
        step(functions, table, steps(functions, table, start, (count - 1) as nat))
    }
}

/// Whether specialization ends after `count` steps.
pub open spec fn ends_after(
    functions: Seq<RawModel>,
    table: TableModel,
    start: ExpansionModel,
    count: nat,
) -> bool {
    &&& next_item(functions, steps(functions, table, start, count)) is None
    &&& forall|earlier: nat|
        earlier < count ==> next_item(
            functions,
            #[trigger] steps(functions, table, start, earlier),
        ) is Some
}

/// What specialization comes to.
pub open spec fn outcome(functions: Seq<RawModel>, table: TableModel, start: ExpansionModel) -> ExpansionModel {
    steps(
        functions,
        table,
        start,
        choose|count: nat| #[trigger] ends_after(functions, table, start, count),
    )
}

proof fn steps_end_once(
    functions: Seq<RawModel>,
    table: TableModel,
    start: ExpansionModel,
    count: nat,
)
    requires
        ends_after(functions, table, start, count),
    ensures
        outcome(functions, table, start) == steps(functions, table, start, count),
{
    let chosen = choose|count: nat| #[trigger] ends_after(functions, table, start, count);
    assert(ends_after(functions, table, start, chosen));
    if chosen < count {
        assert(next_item(functions, steps(functions, table, start, chosen)) is Some);
    }
    if count < chosen {
        assert(next_item(functions, steps(functions, table, start, count)) is Some);
    }
}

/// Whether a dynamic call can reach a function for some type that occurs.
pub open spec fn is_dispatched_to(
    functions: Seq<RawModel>,
    table: TableModel,
    dispatch: usize,
    index: int,
) -> bool {
    exists|place: int|
        0 <= place < table.observed.len() && (#[trigger] table.observed[place]).0 == dispatch
            && function_of_key(functions, instance_key(table.observed[place].1)) == Some(index)
}

/// Whether a call can reach a function.
pub open spec fn reaches(
    functions: Seq<RawModel>,
    table: TableModel,
    call: RawCallModel,
    index: int,
) -> bool {
    match call.target {
        RawTargetModel::Direct { key, display } => function_of_key(functions, key) == Some(index),
        RawTargetModel::Dynamic { dispatch, key, display, receiver } => is_dispatched_to(
            functions,
            table,
            dispatch,
            index,
        ),
        _ => false,
    }
}

/// Whether a function can reach another.
pub open spec fn calls_function(
    functions: Seq<RawModel>,
    table: TableModel,
    function: RawModel,
    index: int,
) -> bool {
    exists|call: int|
        0 <= call < function.calls.len() && reaches(
            functions,
            table,
            #[trigger] function.calls[call],
            index,
        )
}

/// Whether any function can reach a function.
pub open spec fn is_called(functions: Seq<RawModel>, table: TableModel, index: int) -> bool {
    exists|function: int|
        0 <= function < functions.len() && calls_function(
            functions,
            table,
            #[trigger] functions[function],
            index,
        )
}

/// The functions among the first `count` that nobody calls, with their
/// contexts.
pub open spec fn root_items(functions: Seq<RawModel>, table: TableModel, count: int) -> Seq<
    (int, Seq<DynModel>),
>
    decreases count,
{
    if count <= 0 {
        Seq::empty()
    } else if is_called(functions, table, count - 1) {
        root_items(functions, table, count - 1)
    } else {
        root_items(functions, table, count - 1).push(
            (count - 1, root_context(functions[count - 1])),
        )
    }
}

/// The start of specialization.
pub open spec fn first_work(functions: Seq<RawModel>, table: TableModel) -> ExpansionModel {
    ExpansionModel {
        pending: root_items(functions, table, functions.len() as int),
        visited: Seq::empty(),
        covered: Seq::empty(),
        functions: Seq::empty(),
    }
}

/// The function instances of a crate, specialized for the types that reach
/// them.
pub open spec fn specialized(functions: Seq<RawModel>, table: TableModel) -> Seq<SemanticModel> {
    outcome(functions, table, first_work(functions, table)).functions
}

fn is_dispatched(
    functions: &Vec<RawSemanticFunction>,
    table: &DispatchTable,
    dispatch: usize,
    index: usize,
) -> (result: bool)
    ensures
        result == is_dispatched_to(views(functions@), table@, dispatch, index as int),
{
    let mut place: usize = 0;
    while place < table.observed.len()
        invariant
            place <= table.observed@.len(),
            forall|k: int|
                0 <= k < place ==> !((#[trigger] table@.observed[k]).0 == dispatch
                    && function_of_key(views(functions@), instance_key(table@.observed[k].1))
                    == Some(index as int)),
        decreases table.observed@.len() - place,
    {
        let entry = &table.observed[place];
        proof {
            assert(table@.observed[place as int] == entry@);
        }
        if entry.dispatch == dispatch {
            let key = normalize_instance_key(entry.candidate.as_str());
            match find_function(functions, key.as_str()) {
                Some(found) => {
                    if found == index {
                        return true;
                    }
                },
                None => {},
            }
        }
        place += 1;
    }
    false
}

fn calls_function_at(
    functions: &Vec<RawSemanticFunction>,
    table: &DispatchTable,
    function: &RawSemanticFunction,
    index: usize,
) -> (result: bool)
    ensures
        result == calls_function(views(functions@), table@, function@, index as int),
{
    let mut call: usize = 0;
    while call < function.calls.len()
        invariant
            call <= function.calls@.len(),
            forall|k: int|
                0 <= k < call ==> !reaches(
                    views(functions@),
                    table@,
                    #[trigger] function@.calls[k],
                    index as int,
                ),
        decreases function.calls@.len() - call,
    {
        proof {
            assert(function@.calls[call as int] == function.calls@[call as int]@);
        }
        match &function.calls[call].target {
            RawSemanticCallTarget::Direct { key, display: _ } => {
                match find_function(functions, key.as_str()) {
                    Some(found) => {
                        if found == index {
                            return true;
                        }
                    },
                    None => {},
                }
            },
            RawSemanticCallTarget::Dynamic { dispatch, .. } => {
                if is_dispatched(functions, table, *dispatch, index) {
                    return true;
                }
            },
            _ => {},
        }
        call += 1;
    }
    false
}

fn is_function_called(
    functions: &Vec<RawSemanticFunction>,
    table: &DispatchTable,
    index: usize,
) -> (result: bool)
    ensures
        result == is_called(views(functions@), table@, index as int),
{
    let mut function: usize = 0;
    while function < functions.len()
        invariant
            function <= functions@.len(),
            forall|k: int|
                0 <= k < function ==> !calls_function(
                    views(functions@),
                    table@,
                    #[trigger] views(functions@)[k],
                    index as int,
                ),
        decreases functions@.len() - function,
    {
        proof {
            assert(views(functions@)[function as int] == functions@[function as int]@);
        }
        if calls_function_at(functions, table, &functions[function], index) {
            return true;
        }
        function += 1;
    }
    false
}

fn find_roots(functions: &Vec<RawSemanticFunction>, table: &DispatchTable) -> (result: Vec<
    PendingInstance,
>)
    ensures
        views(result@) == root_items(views(functions@), table@, functions@.len() as int),
{
    let mut result: Vec<PendingInstance> = Vec::new();
    let mut index: usize = 0;
    proof {
        assert(views(result@) =~= Seq::empty());
    }
    while index < functions.len()
        invariant
            index <= functions@.len(),
            views(result@) == root_items(views(functions@), table@, index as int),
        decreases functions@.len() - index,
    {
        let ghost before = views(result@);
        proof {
            assert(views(functions@)[index as int] == functions@[index as int]@);
        }
        if !is_function_called(functions, table, index) {
            let item = PendingInstance {
                function: index,
                context: root_dyn_context(&functions[index]),
            };
            let ghost model = item@;
            result.push(item);
            proof {
                assert(views(result@) =~= before.push(model));
            }
        }
        index += 1;
    }
    result
}

// The types in the flows of the first `count` arguments.
spec fn types_in_flows(flows: Seq<DynModel>, count: int) -> Seq<ConcreteModel>
    decreases count,
{
    if count <= 0 {
        Seq::empty()
    } else {
        types_in_flows(flows, count - 1) + flows[count - 1].concrete
    }
}

spec fn types_in_calls(calls: Seq<RawCallModel>, count: int) -> Seq<ConcreteModel>
    decreases count,
{
    if count <= 0 {
        Seq::empty()
    } else {
        let flows = calls[count - 1].argument_flows;
        types_in_calls(calls, count - 1) + types_in_flows(flows, flows.len() as int)
    }
}

spec fn types_in(functions: Seq<RawModel>, count: int) -> Seq<ConcreteModel>
    decreases count,
{
    if count <= 0 {
        Seq::empty()
    } else {
        let calls = functions[count - 1].calls;
        types_in(functions, count - 1) + types_in_calls(calls, calls.len() as int)
    }
}

proof fn flow_types_are_there(flows: Seq<DynModel>, count: int, flow: int, place: int)
    requires
        0 <= flow < count <= flows.len(),
        0 <= place < flows[flow].concrete.len(),
    ensures
        types_in_flows(flows, count).contains(flows[flow].concrete[place]),
    decreases count,
{
    let item = flows[flow].concrete[place];
    in_either(types_in_flows(flows, count - 1), flows[count - 1].concrete, item);
    if flow < count - 1 {
        flow_types_are_there(flows, count - 1, flow, place);
    } else {
        assert(flows[count - 1].concrete.contains(item));
    }
}

proof fn call_types_are_there(
    calls: Seq<RawCallModel>,
    count: int,
    call: int,
    flow: int,
    place: int,
)
    requires
        0 <= call < count <= calls.len(),
        0 <= flow < calls[call].argument_flows.len(),
        0 <= place < calls[call].argument_flows[flow].concrete.len(),
    ensures
        types_in_calls(calls, count).contains(calls[call].argument_flows[flow].concrete[place]),
    decreases count,
{
    let item = calls[call].argument_flows[flow].concrete[place];
    let flows = calls[count - 1].argument_flows;
    in_either(
        types_in_calls(calls, count - 1),
        types_in_flows(flows, flows.len() as int),
        item,
    );
    if call < count - 1 {
        call_types_are_there(calls, count - 1, call, flow, place);
    } else {
        flow_types_are_there(flows, flows.len() as int, flow, place);
    }
}

proof fn types_are_there(
    functions: Seq<RawModel>,
    count: int,
    function: int,
    call: int,
    flow: int,
    place: int,
)
    requires
        0 <= function < count <= functions.len(),
        0 <= call < functions[function].calls.len(),
        0 <= flow < functions[function].calls[call].argument_flows.len(),
        0 <= place < functions[function].calls[call].argument_flows[flow].concrete.len(),
    ensures
        types_in(functions, count).contains(
            functions[function].calls[call].argument_flows[flow].concrete[place],
        ),
    decreases count,
{
    let item = functions[function].calls[call].argument_flows[flow].concrete[place];
    let calls = functions[count - 1].calls;
    in_either(
        types_in(functions, count - 1),
        types_in_calls(calls, calls.len() as int),
        item,
    );
    if function < count - 1 {
        types_are_there(functions, count - 1, function, call, flow, place);
    } else {
        call_types_are_there(calls, calls.len() as int, call, flow, place);
    }
}

// Whether the types of a flow are in a list.
spec fn holds_flow(types: Seq<ConcreteModel>, flow: DynModel) -> bool {
    forall|index: int|
        0 <= index < flow.concrete.len() ==> types.contains(#[trigger] flow.concrete[index])
}

spec fn are_distinct(list: Seq<ConcreteModel>) -> bool {
    forall|i: int, j: int|
        0 <= i < j < list.len() ==> (#[trigger] list[i]).id != (#[trigger] list[j]).id
}

// Whether a flow holds some types only, each once, and ordered reasons.
spec fn is_flow_of(flow: DynModel, types: Seq<ConcreteModel>) -> bool {
    &&& flow.parameters.len() == 0
    &&& are_distinct(flow.concrete)
    &&& holds_flow(types, flow)
    &&& reasons_in_order(flow.unresolved_reasons)
}

proof fn added_types_are_distinct(
    list: Seq<ConcreteModel>,
    more: Seq<ConcreteModel>,
    count: int,
    types: Seq<ConcreteModel>,
)
    requires
        0 <= count <= more.len(),
        forall|index: int| 0 <= index < list.len() ==> types.contains(#[trigger] list[index]),
        forall|index: int| 0 <= index < more.len() ==> types.contains(#[trigger] more[index]),
    ensures
        are_distinct(list) ==> are_distinct(with_concretes(list, more, count)),
        forall|index: int|
            0 <= index < with_concretes(list, more, count).len() ==> types.contains(
                #[trigger] with_concretes(list, more, count)[index],
            ),
    decreases count,
{
    if count > 0 {
        added_types_are_distinct(list, more, count - 1, types);
        let before = with_concretes(list, more, count - 1);
        assert(types.contains(more[count - 1]));
    }
}

proof fn substituted_types_are_there(
    flow: DynModel,
    context: Seq<DynModel>,
    count: int,
    types: Seq<ConcreteModel>,
)
    requires
        0 <= count <= flow.parameters.len(),
        holds_flow(types, flow),
        forall|index: int|
            0 <= index < context.len() ==> holds_flow(types, #[trigger] context[index]),
    ensures
        holds_flow(types, substituted_to(flow, context, count)),
    decreases count,
{
    if count > 0 {
        substituted_types_are_there(flow, context, count - 1, types);
        let before = substituted_to(flow, context, count - 1);
        let parameter = flow.parameters[count - 1] as int;
        if parameter < context.len() {
            let other = context[parameter];
            assert(holds_flow(types, other));
            added_types_are_distinct(
                before.concrete,
                other.concrete,
                other.concrete.len() as int,
                types,
            );
        }
    }
}

proof fn resolved_flows_are_flows(
    flow: DynModel,
    context: Seq<DynModel>,
    types: Seq<ConcreteModel>,
)
    requires
        holds_flow(types, flow),
        forall|index: int|
            0 <= index < context.len() ==> is_flow_of(#[trigger] context[index], types),
    ensures
        is_flow_of(flow_in_context(flow, context), types),
        is_flow_of(argument_in_context(flow, context), types),
{
    assert forall|index: int| 0 <= index < context.len() implies holds_flow(
        types,
        #[trigger] context[index],
    ) by {
        assert(is_flow_of(context[index], types));
    }
    substituted_types_are_there(flow, context, flow.parameters.len() as int, types);
    let inner = substituted(flow, context);
    let none = Seq::<ConcreteModel>::empty();
    added_types_are_distinct(none, inner.concrete, inner.concrete.len() as int, types);
    added_reasons_are_ordered(
        Seq::empty(),
        inner.unresolved_reasons,
        inner.unresolved_reasons.len() as int,
    );
}

// All lists of some items with at most `length` of them.
spec fn lists_up_to(types: Seq<ConcreteModel>, length: nat) -> Seq<Seq<ConcreteModel>>
    decreases length,
{
    if length == 0 {
        lists_of(types, 0)
    } else {
        lists_up_to(types, (length - 1) as nat) + lists_of(types, length)
    }
}

proof fn short_lists_are_there(
    types: Seq<ConcreteModel>,
    length: nat,
    list: Seq<ConcreteModel>,
)
    requires
        list.len() <= length,
        forall|index: int| 0 <= index < list.len() ==> types.contains(#[trigger] list[index]),
    ensures
        lists_up_to(types, length).contains(list),
    decreases length,
{
    lists_are_there(types, list);
    if length > 0 {
        in_either(lists_up_to(types, (length - 1) as nat), lists_of(types, length), list);
        if list.len() < length {
            short_lists_are_there(types, (length - 1) as nat, list);
        }
    }
}

proof fn distinct_lists_are_short(types: Seq<ConcreteModel>, list: Seq<ConcreteModel>)
    requires
        are_distinct(list),
        forall|index: int| 0 <= index < list.len() ==> types.contains(#[trigger] list[index]),
    ensures
        list.len() <= types.len(),
{
    assert(list.no_duplicates()) by {
        assert forall|i: int, j: int|
            0 <= i < list.len() && 0 <= j < list.len() && i != j implies list[i] != list[j] by {
            if i < j {
                assert(list[i].id != list[j].id);
            } else {
                assert(list[j].id != list[i].id);
            }
        }
    }
    list.unique_seq_to_set();
    types.lemma_cardinality_of_set();
    assert(list.to_set().subset_of(types.to_set())) by {
        assert forall|item: ConcreteModel| list.to_set().contains(item) implies #[trigger] types.to_set().contains(item) by {
            let index = choose|index: int| 0 <= index < list.len() && list[index] == item;
            assert(types.contains(list[index]));
        }
    }
    vstd::seq_lib::seq_to_set_is_finite(types);
    vstd::set_lib::lemma_len_subset(list.to_set(), types.to_set());
}

// Each of the first `count` lists of types with each list of reasons.
spec fn flows_of(
    lists: Seq<Seq<ConcreteModel>>,
    reasons: Seq<Seq<UnresolvedReason>>,
    count: int,
) -> Seq<DynModel>
    decreases count,
{
    if count <= 0 {
        Seq::empty()
    } else {
        flows_of(lists, reasons, count - 1) + reasons.map_values(
            |list: Seq<UnresolvedReason>|
                DynModel {
                    concrete: lists[count - 1],
                    parameters: Seq::empty(),
                    unresolved_reasons: list,
                },
        )
    }
}

proof fn flows_are_there(
    lists: Seq<Seq<ConcreteModel>>,
    reasons: Seq<Seq<UnresolvedReason>>,
    count: int,
    flow: DynModel,
)
    requires
        0 <= count <= lists.len(),
        flow.parameters.len() == 0,
        exists|place: int| 0 <= place < count && lists[place] == flow.concrete,
        reasons.contains(flow.unresolved_reasons),
    ensures
        flows_of(lists, reasons, count).contains(flow),
    decreases count,
{
    let place = choose|place: int| 0 <= place < count && lists[place] == flow.concrete;
    let last = reasons.map_values(
        |list: Seq<UnresolvedReason>|
            DynModel {
                concrete: lists[count - 1],
                parameters: Seq::empty(),
                unresolved_reasons: list,
            },
    );
    in_either(flows_of(lists, reasons, count - 1), last, flow);
    if place == count - 1 {
        let spot = choose|spot: int|
            0 <= spot < reasons.len() && reasons[spot] == flow.unresolved_reasons;
        assert(last[spot] =~= flow);
    } else {
        flows_are_there(lists, reasons, count - 1, flow);
    }
}

spec fn all_flows(types: Seq<ConcreteModel>) -> Seq<DynModel> {
    let lists = lists_up_to(types, types.len());
    flows_of(lists, sublists(all_reasons(), 7), lists.len() as int)
}

proof fn flows_are_listed(types: Seq<ConcreteModel>, flow: DynModel)
    requires
        is_flow_of(flow, types),
    ensures
        all_flows(types).contains(flow),
{
    let lists = lists_up_to(types, types.len());
    distinct_lists_are_short(types, flow.concrete);
    short_lists_are_there(types, types.len(), flow.concrete);
    ordered_reasons_are_sublists(flow.unresolved_reasons);
    flows_are_there(lists, sublists(all_reasons(), 7), lists.len() as int, flow);
}

// Whether an item is a function with a context of flows of the types.
spec fn is_item_of(
    functions: Seq<RawModel>,
    types: Seq<ConcreteModel>,
    item: (int, Seq<DynModel>),
) -> bool {
    &&& 0 <= item.0 < functions.len()
    &&& item.1.len() == functions[item.0].parameter_types.len()
    &&& forall|index: int| 0 <= index < item.1.len() ==> is_flow_of(#[trigger] item.1[index], types)
}

spec fn are_items_of(
    functions: Seq<RawModel>,
    types: Seq<ConcreteModel>,
    items: Seq<(int, Seq<DynModel>)>,
) -> bool {
    forall|index: int|
        0 <= index < items.len() ==> is_item_of(functions, types, #[trigger] items[index])
}

proof fn roots_are_items(functions: Seq<RawModel>, types: Seq<ConcreteModel>, index: int)
    requires
        0 <= index < functions.len(),
    ensures
        is_item_of(functions, types, (index, root_context(functions[index]))),
{
}

proof fn first_items_are_items(
    functions: Seq<RawModel>,
    table: TableModel,
    types: Seq<ConcreteModel>,
    count: int,
)
    requires
        0 <= count <= functions.len(),
    ensures
        are_items_of(functions, types, root_items(functions, table, count)),
    decreases count,
{
    if count > 0 {
        first_items_are_items(functions, table, types, count - 1);
        roots_are_items(functions, types, count - 1);
    }
}

spec fn hold_flows(types: Seq<ConcreteModel>, flows: Seq<DynModel>) -> bool {
    forall|index: int| 0 <= index < flows.len() ==> holds_flow(types, #[trigger] flows[index])
}

spec fn are_flows_of(context: Seq<DynModel>, types: Seq<ConcreteModel>) -> bool {
    forall|index: int| 0 <= index < context.len() ==> is_flow_of(#[trigger] context[index], types)
}

proof fn call_contexts_are_items(
    functions: Seq<RawModel>,
    types: Seq<ConcreteModel>,
    index: int,
    arguments: Seq<DynModel>,
    context: Seq<DynModel>,
)
    requires
        0 <= index < functions.len(),
        hold_flows(types, arguments),
        are_flows_of(context, types),
    ensures
        is_item_of(functions, types, (index, call_context(functions[index], arguments, context))),
{
    let target = call_context(functions[index], arguments, context);
    assert forall|place: int| 0 <= place < target.len() implies is_flow_of(
        #[trigger] target[place],
        types,
    ) by {
        if place < arguments.len() {
            assert(holds_flow(types, arguments[place]));
            resolved_flows_are_flows(arguments[place], context, types);
        }
    }
}

proof fn candidate_items_are_items(
    functions: Seq<RawModel>,
    table: TableModel,
    types: Seq<ConcreteModel>,
    dispatch: usize,
    concrete: Seq<ConcreteModel>,
    arguments: Seq<DynModel>,
    context: Seq<DynModel>,
    count: int,
)
    requires
        0 <= count <= concrete.len(),
        hold_flows(types, arguments),
        are_flows_of(context, types),
    ensures
        are_items_of(
            functions,
            types,
            candidates_for(functions, table, dispatch, concrete, arguments, context, count).1,
        ),
    decreases count,
{
    if count > 0 {
        candidate_items_are_items(
            functions,
            table,
            types,
            dispatch,
            concrete,
            arguments,
            context,
            count - 1,
        );
        match dispatched(table, dispatch, concrete[count - 1].id) {
            Some(name) => {
                let key = instance_key(name);
                keys_stand_for_functions(functions, key, functions.len() as int);
                match function_of_key(functions, key) {
                    Some(index) => {
                        call_contexts_are_items(functions, types, index, arguments, context);
                    },
                    None => {},
                }
            },
            None => {},
        }
    }
}

proof fn call_items_are_items(
    functions: Seq<RawModel>,
    table: TableModel,
    types: Seq<ConcreteModel>,
    calls: Seq<RawCallModel>,
    context: Seq<DynModel>,
    count: int,
)
    requires
        0 <= count <= calls.len(),
        forall|call: int|
            0 <= call < calls.len() ==> hold_flows(
                types,
                (#[trigger] calls[call]).argument_flows,
            ),
        are_flows_of(context, types),
    ensures
        are_items_of(
            functions,
            types,
            calls_in_context(functions, table, calls, context, count).1,
        ),
    decreases count,
{
    if count > 0 {
        call_items_are_items(functions, table, types, calls, context, count - 1);
        let call = calls[count - 1];
        assert(hold_flows(types, call.argument_flows));
        match call.target {
            RawTargetModel::Direct { key, display } => {
                keys_stand_for_functions(functions, key, functions.len() as int);
                match function_of_key(functions, key) {
                    Some(index) => {
                        call_contexts_are_items(
                            functions,
                            types,
                            index,
                            call.argument_flows,
                            context,
                        );
                    },
                    None => {},
                }
            },
            RawTargetModel::Dynamic { dispatch, key, display, receiver } => {
                let resolved = flow_in_context(receiver, context);
                candidate_items_are_items(
                    functions,
                    table,
                    types,
                    dispatch,
                    resolved.concrete,
                    call.argument_flows,
                    context,
                    resolved.concrete.len() as int,
                );
            },
            _ => {},
        }
    }
}

spec fn parameter_counts(functions: Seq<RawModel>) -> Seq<nat> {
    functions.map_values(|function: RawModel| function.parameter_types.len())
}

// All items that specialization can come to.
spec fn all_items(functions: Seq<RawModel>) -> Seq<(int, Seq<DynModel>)> {
    all_contexts(
        all_flows(types_in(functions, functions.len() as int)),
        parameter_counts(functions),
        functions.len() as int,
    )
}

spec fn item_key(functions: Seq<RawModel>) -> spec_fn(int, Seq<DynModel>) -> Seq<char> {
    |index: int, context: Seq<DynModel>| key_of(functions[index], context)
}

spec fn left_to_visit(functions: Seq<RawModel>, visited: Seq<Seq<char>>) -> nat {
    unvisited(
        all_items(functions),
        item_key(functions),
        visited,
        all_items(functions).len() as int,
    )
}

proof fn visiting_items_leaves_fewer(
    functions: Seq<RawModel>,
    visited: Seq<Seq<char>>,
    item: (int, Seq<DynModel>),
)
    requires
        is_item_of(functions, types_in(functions, functions.len() as int), item),
        !visited.contains(key_of(functions[item.0], item.1)),
    ensures
        left_to_visit(functions, visited.push(key_of(functions[item.0], item.1)))
            < left_to_visit(functions, visited),
{
    let types = types_in(functions, functions.len() as int);
    assert forall|index: int| 0 <= index < item.1.len() implies all_flows(types).contains(
        #[trigger] item.1[index],
    ) by {
        flows_are_listed(types, item.1[index]);
    }
    contexts_are_there(
        all_flows(types),
        parameter_counts(functions),
        functions.len() as int,
        item.0,
        item.1,
    );
    let items = all_items(functions);
    let place = choose|place: int| 0 <= place < items.len() && items[place] == item;
    let key = key_of(functions[item.0], item.1);
    let keys = item_key(functions);
    assert(keys(items[place].0, items[place].1) == key);
    visits_leave_fewer(items, keys, visited, key, items.len() as int);
}

// What holds of the work at every step.
spec fn is_sound(functions: Seq<RawModel>, work: ExpansionModel) -> bool {
    are_items_of(functions, types_in(functions, functions.len() as int), work.pending)
}

// Whether a step brought the end nearer.
spec fn is_nearer(functions: Seq<RawModel>, before: ExpansionModel, after: ExpansionModel) -> bool {
    let count = functions.len() as int;
    ||| left_to_visit(functions, after.visited) < left_to_visit(functions, before.visited)
    ||| after.visited == before.visited && uncovered(after.covered, count) < uncovered(
        before.covered,
        count,
    )
    ||| after.visited == before.visited && uncovered(after.covered, count) == uncovered(
        before.covered,
        count,
    ) && after.pending.len() < before.pending.len()
}

proof fn steps_come_nearer(functions: Seq<RawModel>, table: TableModel, work: ExpansionModel)
    requires
        functions.len() <= usize::MAX,
        is_sound(functions, work),
        next_item(functions, work) is Some,
    ensures
        is_item_of(
            functions,
            types_in(functions, functions.len() as int),
            next_item(functions, work)->0,
        ),
        is_sound(functions, step(functions, table, work)),
        is_nearer(functions, work, step(functions, table, work)),
{
    let count = functions.len() as int;
    let types = types_in(functions, count);
    let item = next_item(functions, work)->0;
    uncovered_is_one(work.covered, count, 0);
    if work.pending.len() > 0 {
        assert(is_item_of(functions, types, work.pending[0]));
    } else {
        roots_are_items(functions, types, item.0);
        first_uncovered_is_uncovered(work.covered, count, 0);
    }
    covering_leaves_fewer(work.covered, item.0 as usize, count);
    let key = key_of(functions[item.0], item.1);
    if !work.visited.contains(key) {
        visiting_items_leaves_fewer(functions, work.visited, item);
    }
    let calls = functions[item.0].calls;
    assert forall|call: int| 0 <= call < calls.len() implies hold_flows(
        types,
        (#[trigger] calls[call]).argument_flows,
    ) by {
        let flows = calls[call].argument_flows;
        assert forall|flow: int| 0 <= flow < flows.len() implies holds_flow(
            types,
            #[trigger] flows[flow],
        ) by {
            assert forall|place: int| 0 <= place < flows[flow].concrete.len() implies types.contains(
                #[trigger] flows[flow].concrete[place],
            ) by {
                types_are_there(functions, count, item.0, call, flow, place);
            }
        }
    }
    call_items_are_items(functions, table, types, calls, item.1, calls.len() as int);
    let rest = without_first(work);
    assert forall|index: int| 0 <= index < rest.pending.len() implies is_item_of(
        functions,
        types,
        #[trigger] rest.pending[index],
    ) by {
        assert(is_item_of(functions, types, work.pending[index + 1]));
    }
}

/// What is first uncovered is uncovered; where nothing is, all is covered.
pub proof fn first_uncovered_is_uncovered(covered: Seq<usize>, count: int, index: int)
    requires
        0 <= index,
    ensures
        match first_uncovered(covered, count, index) {
            Some(found) => index <= found < count && !covered.contains(found as usize),
            None => forall|other: int|
                index <= other < count ==> #[trigger] covered.contains(other as usize),
        },
    decreases count - index,
{
    if index < count {
        first_uncovered_is_uncovered(covered, count, index + 1);
    }
}

proof fn ends_from(
    functions: Seq<RawModel>,
    table: TableModel,
    start: ExpansionModel,
    count: nat,
)
    requires
        functions.len() <= usize::MAX,
        is_sound(functions, steps(functions, table, start, count)),
        forall|earlier: nat|
            earlier < count ==> next_item(
                functions,
                #[trigger] steps(functions, table, start, earlier),
            ) is Some,
    ensures
        exists|end: nat| #[trigger] ends_after(functions, table, start, end),
    decreases
            left_to_visit(functions, steps(functions, table, start, count).visited),
            uncovered(steps(functions, table, start, count).covered, functions.len() as int),
            steps(functions, table, start, count).pending.len(),
{
    let work = steps(functions, table, start, count);
    if next_item(functions, work) is None {
        assert(ends_after(functions, table, start, count));
    } else {
        steps_come_nearer(functions, table, work);
        assert(steps(functions, table, start, count + 1) == step(functions, table, work));
        ends_from(functions, table, start, count + 1);
    }
}

/// Specialization ends, and then every function was taken up: also one whose
/// key another function has, too.
pub proof fn every_function_is_taken_up(functions: Seq<RawModel>, table: TableModel, index: int)
    requires
        functions.len() <= usize::MAX,
        0 <= index < functions.len(),
    ensures
        outcome(functions, table, first_work(functions, table)).covered.contains(index as usize),
        outcome(functions, table, first_work(functions, table)).pending.len() == 0,
{
    let start = first_work(functions, table);
    let count = functions.len() as int;
    first_items_are_items(functions, table, types_in(functions, count), count);
    assert(steps(functions, table, start, 0) == start);
    ends_from(functions, table, start, 0);
    let end = choose|end: nat| #[trigger] ends_after(functions, table, start, end);
    steps_end_once(functions, table, start, end);
    let work = outcome(functions, table, start);
    first_uncovered_is_uncovered(work.covered, count, 0);
}

fn take_item(functions: &Vec<RawSemanticFunction>, work: &mut Expansion) -> (result: Option<
    PendingInstance,
>)
    ensures
        match result {
            Some(item) => next_item(views(functions@), old(work)@) == Some(item@),
            None => next_item(views(functions@), old(work)@) is None,
        },
        final(work)@ == without_first(old(work)@),
{
    let ghost before = work@;
    if work.pending.len() > 0 {
        let item = work.pending.remove(0);
        proof {
            assert(before.pending[0] == item@);
            assert(views(work.pending@) =~= before.pending.skip(1));
        }
        Some(item)
    } else {
        match find_uncovered(&work.covered, functions.len()) {
            Some(index) => {
                proof {
                    assert(views(functions@)[index as int] == functions@[index as int]@);
                }
                Some(
                    PendingInstance {
                        function: index,
                        context: root_dyn_context(&functions[index]),
                    },
                )
            },
            None => None,
        }
    }
}

fn take_up(
    functions: &Vec<RawSemanticFunction>,
    table: &DispatchTable,
    work: &mut Expansion,
    item: PendingInstance,
)
    requires
        item.function < functions@.len(),
    ensures
        final(work)@ == taken_up(views(functions@), table@, old(work)@, item@),
{
    let ghost before = work@;
    let raw = &functions[item.function];
    proof {
        assert(views(functions@)[item.function as int] == raw@);
        assert(raw@.calls.len() == raw.calls@.len());
    }
    let key = specialized_function_key(raw, &item.context);
    work.covered.push(item.function);
    if crate::rust::calls::has_text(&work.visited, key.as_str()) {
        return ;
    }
    let (calls, mut more) = find_calls(functions, table, &raw.calls, &item.context);
    let ghost added = views(more@);
    let function = SemanticFunction {
        base_key: raw.key.clone(),
        key: key.clone(),
        display: raw.display.clone(),
        definition_name: raw.definition_name.clone(),
        body_span: raw.body_span.clone(),
        calls,
        constructor_spans: copy_list(&raw.constructor_spans),
        constructor_names: copy_texts(&raw.constructor_names),
        parameter_types: copy_texts(&raw.parameter_types),
    };
    let ghost model = function@;
    let ghost name = key@;
    work.visited.push(key);
    work.pending.append(&mut more);
    work.functions.push(function);
    proof {
        assert(model =~= function_in_context(views(functions@), table@, raw@, item@.1));
        assert(views(work.pending@) =~= before.pending + added);
        assert(texts(work.visited@) =~= before.visited.push(name));
        assert(views(work.functions@) =~= before.functions.push(model));
    }
}

/// Specializes the function instances of a crate for the types that reach
/// them, starting from those that nobody calls.
pub fn specialize_semantic_functions(
    raw_functions: &Vec<RawSemanticFunction>,
    table: &DispatchTable,
) -> (result: Vec<SemanticFunction>)
    ensures
        views(result@) == specialized(views(raw_functions@), table@),
{
    let mut work = Expansion {
        pending: find_roots(raw_functions, table),
        visited: Vec::new(),
        covered: Vec::new(),
        functions: Vec::new(),
    };
    let total: usize = raw_functions.len();
    let ghost all = views(raw_functions@);
    let ghost start = first_work(all, table@);
    let ghost mut count: nat = 0;
    proof {
        assert(all.len() == total);
        assert(work@ =~= start);
        first_items_are_items(
            all,
            table@,
            types_in(all, all.len() as int),
            all.len() as int,
        );
    }
    loop
        invariant
            all == views(raw_functions@),
            all.len() == raw_functions@.len(),
            all.len() == total,
            start == first_work(all, table@),
            is_sound(all, work@),
            work@ == steps(all, table@, start, count),
            forall|earlier: nat|
                earlier < count ==> next_item(
                    all,
                    #[trigger] steps(all, table@, start, earlier),
                ) is Some,
        decreases
            left_to_visit(all, work@.visited),
            uncovered(work@.covered, all.len() as int),
            work@.pending.len(),
    {
        let ghost before = work@;
        proof {
            if next_item(all, before) is Some {
                steps_come_nearer(all, table@, before);
            }
        }
        match take_item(raw_functions, &mut work) {
            None => {
                proof {
                    assert(ends_after(all, table@, start, count));
                    steps_end_once(all, table@, start, count);
                }
                return work.functions;
            },
            Some(item) => {
                take_up(raw_functions, table, &mut work, item);
                proof {
                    assert(work@ == step(all, table@, before));
                    count = count + 1;
                }
            },
        }
    }
}

} // verus!
