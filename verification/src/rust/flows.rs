//! The concrete types that can stand behind a dynamic type, by name.
use crate::lists::views;
use crate::model::{reason_rank, reason_text, UnresolvedReason};
use crate::rust::contexts::in_either;
use crate::rust::semantic::{
    FlowModel, SemanticCall, SemanticCallModel, SemanticCallTarget, SemanticDynFlow,
    SemanticFunction, SemanticModel, SemanticTargetModel,
};
use crate::sets::{
    add_reason, add_reasons, add_texts, added_reason_keeps_order, added_text_keeps_order,
    reasons_in_order, texts_in_order, with_reason, with_reasons, with_texts,
};
use crate::text::{
    concat_texts, contains, contains_text, copy_texts, decimal, decimal_text, join_texts, joined,
    text_less, text_order_laws, texts,
};
use vstd::prelude::*;

verus! {

/// The concrete types that can reach a parameter, and why there may be more.
#[derive(Debug)]
pub struct NamedDynFlow {
    /// In order, each type once.
    pub concrete_types: Vec<String>,
    /// In order, each reason once.
    pub unresolved_reasons: Vec<UnresolvedReason>,
}

#[verifier::ext_equal]
pub struct NamedModel {
    pub concrete_types: Seq<Seq<char>>,
    pub unresolved_reasons: Seq<UnresolvedReason>,
}

impl View for NamedDynFlow {
    type V = NamedModel;

    open spec fn view(&self) -> NamedModel {
        NamedModel {
            concrete_types: texts(self.concrete_types@),
            unresolved_reasons: self.unresolved_reasons@,
        }
    }
}

impl Clone for NamedDynFlow {
    fn clone(&self) -> (result: Self)
        ensures
            result@ == self@,
    {
        NamedDynFlow {
            concrete_types: copy_texts(&self.concrete_types),
            unresolved_reasons: crate::model::copy_reasons(&self.unresolved_reasons),
        }
    }
}

/// No types and no reasons.
pub open spec fn no_flow() -> NamedModel {
    NamedModel { concrete_types: Seq::empty(), unresolved_reasons: Seq::empty() }
}

/// No types, for one reason.
pub open spec fn opaque_flow(reason: UnresolvedReason) -> NamedModel {
    NamedModel { concrete_types: Seq::empty(), unresolved_reasons: seq![reason] }
}

fn empty_flow() -> (result: NamedDynFlow)
    ensures
        result@ == no_flow(),
{
    let result = NamedDynFlow { concrete_types: Vec::new(), unresolved_reasons: Vec::new() };
    proof {
        assert(result@ =~= no_flow());
    }
    result
}

fn unknown_flow(reason: UnresolvedReason) -> (result: NamedDynFlow)
    ensures
        result@ == opaque_flow(reason),
{
    let mut result = empty_flow();
    result.unresolved_reasons.push(reason);
    proof {
        assert(result@ =~= opaque_flow(reason));
    }
    result
}

/// What two flows hold together.
pub open spec fn joint_flow(left: NamedModel, right: NamedModel) -> NamedModel {
    NamedModel {
        concrete_types: with_texts(
            left.concrete_types,
            right.concrete_types,
            right.concrete_types.len() as int,
        ),
        unresolved_reasons: with_reasons(
            left.unresolved_reasons,
            right.unresolved_reasons,
            right.unresolved_reasons.len() as int,
        ),
    }
}

/// Adds what another flow holds.
pub fn merge_named_flow(destination: &mut NamedDynFlow, source: &NamedDynFlow)
    ensures
        final(destination)@ == joint_flow(old(destination)@, source@),
{
    proof {
        assert(texts(source.concrete_types@).len() == source.concrete_types@.len());
    }
    add_texts(&mut destination.concrete_types, &source.concrete_types);
    add_reasons(&mut destination.unresolved_reasons, &source.unresolved_reasons);
}

/// What a flow holds in a context, by the first `count` parameters that flow
/// into it.
pub open spec fn resolved_to(flow: FlowModel, context: Seq<NamedModel>, count: int) -> NamedModel
    decreases count,
{
    if count <= 0 {
        NamedModel {
            concrete_types: with_texts(
                Seq::empty(),
                flow.concrete_types,
                flow.concrete_types.len() as int,
            ),
            unresolved_reasons: with_reasons(
                Seq::empty(),
                flow.unresolved_reasons,
                flow.unresolved_reasons.len() as int,
            ),
        }
    } else {
        let before = resolved_to(flow, context, count - 1);
        let parameter = flow.parameters[count - 1] as int;
        if parameter < context.len() {
            joint_flow(before, context[parameter])
        } else {
            NamedModel {
                unresolved_reasons: with_reason(
                    before.unresolved_reasons,
                    UnresolvedReason::AnalysisLimit,
                ),
                ..before
            }
        }
    }
}

/// What a flow holds in a context.
pub open spec fn resolved_flow(flow: FlowModel, context: Seq<NamedModel>) -> NamedModel {
    resolved_to(flow, context, flow.parameters.len() as int)
}

/// What a flow holds in a context.
pub fn resolve_named_flow(flow: &SemanticDynFlow, context: &Vec<NamedDynFlow>) -> (result:
    NamedDynFlow)
    ensures
        result@ == resolved_flow(flow@, views(context@)),
{
    let mut result = empty_flow();
    proof {
        assert(texts(flow.concrete_types@).len() == flow.concrete_types@.len());
    }
    add_texts(&mut result.concrete_types, &flow.concrete_types);
    add_reasons(&mut result.unresolved_reasons, &flow.unresolved_reasons);
    let mut index: usize = 0;
    while index < flow.parameters.len()
        invariant
            index <= flow.parameters@.len(),
            result@ == resolved_to(flow@, views(context@), index as int),
        decreases flow.parameters@.len() - index,
    {
        let parameter: usize = flow.parameters[index];
        if parameter < context.len() {
            proof {
                assert(views(context@)[parameter as int] == context@[parameter as int]@);
            }
            merge_named_flow(&mut result, &context[parameter]);
        } else {
            let added = add_reason(
                &mut result.unresolved_reasons,
                UnresolvedReason::AnalysisLimit,
            );
        }
        index += 1;
    }
    result
}

/// Whether a parameter flows into a call.
pub open spec fn flows_into(call: SemanticCallModel, parameter: usize) -> bool {
    ||| exists|index: int|
        0 <= index < call.argument_flows.len() && (#[trigger] call.argument_flows[index])
            .parameters.contains(parameter)
    ||| match call.target {
        SemanticTargetModel::Dynamic { receiver_flow, .. } => receiver_flow.parameters.contains(
            parameter,
        ),
        _ => false,
    }
}

/// Whether a parameter flows into any call of a function.
pub open spec fn uses_parameter(function: SemanticModel, parameter: usize) -> bool {
    exists|index: int|
        0 <= index < function.calls.len() && flows_into(#[trigger] function.calls[index], parameter)
}

fn has_parameter(flow: &SemanticDynFlow, parameter: usize) -> (result: bool)
    ensures
        result == flow@.parameters.contains(parameter),
{
    let mut index: usize = 0;
    while index < flow.parameters.len()
        invariant
            index <= flow.parameters@.len(),
            forall|k: int| 0 <= k < index ==> flow.parameters@[k] != parameter,
        decreases flow.parameters@.len() - index,
    {
        if flow.parameters[index] == parameter {
            return true;
        }
        index += 1;
    }
    false
}

fn parameter_flows_into(call: &SemanticCall, parameter: usize) -> (result: bool)
    ensures
        result == flows_into(call@, parameter),
{
    let mut index: usize = 0;
    while index < call.argument_flows.len()
        invariant
            index <= call.argument_flows@.len(),
            forall|k: int|
                0 <= k < index ==> !(#[trigger] call@.argument_flows[k]).parameters.contains(
                    parameter,
                ),
        decreases call.argument_flows@.len() - index,
    {
        proof {
            assert(call@.argument_flows[index as int] == call.argument_flows@[index as int]@);
        }
        if has_parameter(&call.argument_flows[index], parameter) {
            return true;
        }
        index += 1;
    }
    match &call.target {
        SemanticCallTarget::Dynamic { receiver_flow, .. } => has_parameter(
            receiver_flow,
            parameter,
        ),
        _ => false,
    }
}

/// Whether a parameter flows into any call of a function.
pub fn semantic_function_uses_dyn_parameter(function: &SemanticFunction, parameter: usize) -> (
    result: bool)
    ensures
        result == uses_parameter(function@, parameter),
{
    let mut index: usize = 0;
    while index < function.calls.len()
        invariant
            index <= function.calls@.len(),
            forall|k: int|
                0 <= k < index ==> !flows_into(#[trigger] function@.calls[k], parameter),
        decreases function.calls@.len() - index,
    {
        proof {
            assert(function@.calls[index as int] == function.calls@[index as int]@);
        }
        if parameter_flows_into(&function.calls[index], parameter) {
            return true;
        }
        index += 1;
    }
    false
}

/// Whether the values of a parameter matter for what a function calls.
pub open spec fn parameter_matters(function: SemanticModel, parameter: int) -> bool {
    contains(function.parameter_types[parameter], "dyn "@) || uses_parameter(
        function,
        parameter as usize,
    )
}

fn parameter_is_dynamic(function: &SemanticFunction, parameter: usize) -> (result: bool)
    requires
        parameter < function.parameter_types@.len(),
    ensures
        result == parameter_matters(function@, parameter as int),
{
    proof {
        assert(function@.parameter_types[parameter as int]
            == function.parameter_types@[parameter as int]@);
    }
    contains_text(function.parameter_types[parameter].as_str(), "dyn ")
        || semantic_function_uses_dyn_parameter(function, parameter)
}

/// The context of a function that nobody is known to call: its callers can
/// hand it anything.
pub open spec fn root_context(function: SemanticModel) -> Seq<NamedModel> {
    Seq::new(
        function.parameter_types.len(),
        |index: int|
            if parameter_matters(function, index) {
                opaque_flow(UnresolvedReason::OpaqueInput)
            } else {
                no_flow()
            },
    )
}

/// The context of a function that nobody is known to call.
pub fn root_named_context(function: &SemanticFunction) -> (result: Vec<NamedDynFlow>)
    ensures
        views(result@) == root_context(function@),
{
    let mut result: Vec<NamedDynFlow> = Vec::new();
    let mut index: usize = 0;
    while index < function.parameter_types.len()
        invariant
            index <= function.parameter_types@.len(),
            result@.len() == index,
            forall|k: int|
                0 <= k < index ==> (#[trigger] result@[k])@ == root_context(function@)[k],
        decreases function.parameter_types@.len() - index,
    {
        if parameter_is_dynamic(function, index) {
            result.push(unknown_flow(UnresolvedReason::OpaqueInput));
        } else {
            result.push(empty_flow());
        }
        index += 1;
    }
    proof {
        assert(views(result@) =~= root_context(function@));
    }
    result
}

/// The context that a call gives its callee.
pub open spec fn call_context(
    callee: SemanticModel,
    arguments: Seq<FlowModel>,
    context: Seq<NamedModel>,
) -> Seq<NamedModel> {
    Seq::new(
        callee.parameter_types.len(),
        |index: int|
            if !parameter_matters(callee, index) {
                no_flow()
            } else if index < arguments.len() {
                resolved_flow(arguments[index], context)
            } else {
                opaque_flow(UnresolvedReason::AnalysisLimit)
            },
    )
}

/// The context that a call gives its callee.
pub fn named_call_context(
    callee: &SemanticFunction,
    arguments: &Vec<SemanticDynFlow>,
    caller_context: &Vec<NamedDynFlow>,
) -> (result: Vec<NamedDynFlow>)
    ensures
        views(result@) == call_context(callee@, views(arguments@), views(caller_context@)),
{
    let mut result: Vec<NamedDynFlow> = Vec::new();
    let mut index: usize = 0;
    while index < callee.parameter_types.len()
        invariant
            index <= callee.parameter_types@.len(),
            result@.len() == index,
            forall|k: int|
                0 <= k < index ==> (#[trigger] result@[k])@ == call_context(
                    callee@,
                    views(arguments@),
                    views(caller_context@),
                )[k],
        decreases callee.parameter_types@.len() - index,
    {
        if !parameter_is_dynamic(callee, index) {
            result.push(empty_flow());
        } else if index < arguments.len() {
            proof {
                assert(views(arguments@)[index as int] == arguments@[index as int]@);
            }
            result.push(resolve_named_flow(&arguments[index], caller_context));
        } else {
            result.push(unknown_flow(UnresolvedReason::AnalysisLimit));
        }
        index += 1;
    }
    proof {
        assert(views(result@) =~= call_context(
            callee@,
            views(arguments@),
            views(caller_context@),
        ));
    }
    result
}

/// The reasons as they stand in keys.
pub open spec fn reason_marks(reasons: Seq<UnresolvedReason>) -> Seq<Seq<char>> {
    reasons.map_values(|reason: UnresolvedReason| "?"@ + reason_text(reason))
}

/// The value of a parameter as it stands in keys.
pub open spec fn binding_text(index: int, flow: NamedModel) -> Seq<char> {
    decimal(index as nat) + "="@ + joined(
        flow.concrete_types + reason_marks(flow.unresolved_reasons),
        "|"@,
    )
}

/// Whether the value of a parameter stands in the key.
pub open spec fn is_bound(types: Seq<Seq<char>>, index: int, flow: NamedModel) -> bool {
    (index < types.len() && contains(types[index], "dyn "@)) || flow.concrete_types.len() > 0
        || flow.unresolved_reasons.len() > 0
}

/// The values of the first `count` parameters as they stand in keys.
pub open spec fn bindings(types: Seq<Seq<char>>, context: Seq<NamedModel>, count: int) -> Seq<
    Seq<char>,
>
    decreases count,
{
    if count <= 0 {
        Seq::empty()
    } else if is_bound(types, count - 1, context[count - 1]) {
        bindings(types, context, count - 1).push(binding_text(count - 1, context[count - 1]))
    } else {
        bindings(types, context, count - 1)
    }
}

/// A key with the context that it is for.
pub open spec fn key_in_context(
    base: Seq<char>,
    types: Seq<Seq<char>>,
    context: Seq<NamedModel>,
) -> Seq<char> {
    let values = bindings(types, context, context.len() as int);
    if values.len() == 0 {
        base
    } else {
        base + "#ctx[dyn:"@ + joined(values, ","@) + "]"@
    }
}

fn text_of_binding(index: usize, flow: &NamedDynFlow) -> (result: String)
    ensures
        result@ == binding_text(index as int, flow@),
{
    let mut values = copy_texts(&flow.concrete_types);
    let mut place: usize = 0;
    let ghost types = texts(flow.concrete_types@);
    let ghost marks = reason_marks(flow.unresolved_reasons@);
    proof {
        assert(types + marks.take(0) =~= types);
    }
    while place < flow.unresolved_reasons.len()
        invariant
            place <= flow.unresolved_reasons@.len(),
            marks == reason_marks(flow.unresolved_reasons@),
            texts(values@) == types + marks.take(place as int),
        decreases flow.unresolved_reasons@.len() - place,
    {
        let ghost before = texts(values@);
        let mark = concat_texts("?", flow.unresolved_reasons[place].to_text().as_str());
        values.push(mark);
        proof {
            assert(texts(values@) =~= before.push(mark@));
            assert(marks.take(place + 1) =~= marks.take(place as int).push(marks[place as int]));
            assert(before.push(mark@) =~= types + marks.take(place + 1));
        }
        place += 1;
    }
    proof {
        assert(marks.take(marks.len() as int) =~= marks);
    }
    let mut result = decimal_text(index);
    result.append("=");
    result.append(join_texts(&values, "|").as_str());
    result
}

/// A key with the context that it is for.
pub fn specialized_key(base: &str, types: &Vec<String>, context: &Vec<NamedDynFlow>) -> (result:
    String)
    ensures
        result@ == key_in_context(base@, texts(types@), views(context@)),
{
    let mut values: Vec<String> = Vec::new();
    let mut index: usize = 0;
    proof {
        assert(texts(values@) =~= Seq::empty());
    }
    while index < context.len()
        invariant
            index <= context@.len(),
            texts(values@) == bindings(texts(types@), views(context@), index as int),
        decreases context@.len() - index,
    {
        let flow = &context[index];
        let ghost before = texts(values@);
        proof {
            assert(views(context@)[index as int] == flow@);
            assert(texts(flow.concrete_types@).len() == flow.concrete_types@.len());
            if index < types@.len() {
                assert(texts(types@)[index as int] == types@[index as int]@);
            }
        }
        let dynamic = index < types.len() && contains_text(types[index].as_str(), "dyn ");
        if dynamic || flow.concrete_types.len() > 0 || flow.unresolved_reasons.len() > 0 {
            let value = text_of_binding(index, flow);
            values.push(value);
            proof {
                assert(texts(values@) =~= before.push(value@));
            }
        }
        index += 1;
    }
    proof {
        assert(texts(values@).len() == values@.len());
    }
    if values.len() == 0 {
        return base.to_owned();
    }
    let mut result = base.to_owned();
    result.append("#ctx[dyn:");
    result.append(join_texts(&values, ",").as_str());
    result.append("]");
    result
}

/// The key of a function in a context.
pub open spec fn named_key(function: SemanticModel, context: Seq<NamedModel>) -> Seq<char> {
    key_in_context(function.base_key, function.parameter_types, context)
}

/// The key of a function in a context.
pub fn named_specialized_key(function: &SemanticFunction, context: &Vec<NamedDynFlow>) -> (result:
    String)
    ensures
        result@ == named_key(function@, views(context@)),
{
    specialized_key(function.base_key.as_str(), &function.parameter_types, context)
}

/// All lists that are made of some of the first `count` items in their order.
pub open spec fn sublists<T>(items: Seq<T>, count: int) -> Seq<Seq<T>>
    decreases count,
{
    if count <= 0 {
        seq![Seq::empty()]
    } else {
        let shorter = sublists(items, count - 1);
        shorter + shorter.map_values(|list: Seq<T>| list.push(items[count - 1]))
    }
}

/// An ordered list of ordered items is among their sublists.
pub proof fn ordered_lists_are_sublists<T>(
    items: Seq<T>,
    count: int,
    list: Seq<T>,
    less: spec_fn(T, T) -> bool,
)
    requires
        0 <= count <= items.len(),
        forall|a: T, b: T| #[trigger] less(a, b) ==> !less(b, a),
        forall|i: int, j: int|
            0 <= i < j < items.len() ==> #[trigger] less(items[i], items[j]),
        forall|i: int, j: int| 0 <= i < j < list.len() ==> #[trigger] less(list[i], list[j]),
        forall|i: int|
            0 <= i < list.len() ==> exists|k: int|
                0 <= k < count && items[k] == #[trigger] list[i],
    ensures
        sublists(items, count).contains(list),
    decreases count,
{
    if count == 0 {
        if list.len() > 0 {
            let first = list[0];
            assert(exists|k: int| 0 <= k < count && items[k] == first);
        }
        assert(sublists(items, 0)[0] =~= list);
    } else {
        let last = items[count - 1];
        let shorter = sublists(items, count - 1);
        let longer = shorter.map_values(|list: Seq<T>| list.push(last));
        in_either(shorter, longer, list);
        if list.len() > 0 && list.last() == last {
            let front = list.drop_last();
            assert forall|i: int| 0 <= i < front.len() implies exists|k: int|
                0 <= k < count - 1 && items[k] == #[trigger] front[i] by {
                let k = choose|k: int| 0 <= k < count && items[k] == list[i];
                assert(less(list[i], list[list.len() - 1]));
                assert(k != count - 1);
                assert(items[k] == front[i]);
            }
            assert forall|i: int, j: int| 0 <= i < j < front.len() implies #[trigger] less(
                front[i],
                front[j],
            ) by {
                assert(less(list[i], list[j]));
            }
            ordered_lists_are_sublists(items, count - 1, front, less);
            let place = choose|place: int| 0 <= place < shorter.len() && shorter[place] == front;
            assert(longer[place] =~= list);
        } else {
            assert forall|i: int| 0 <= i < list.len() implies exists|k: int|
                0 <= k < count - 1 && items[k] == #[trigger] list[i] by {
                let k = choose|k: int| 0 <= k < count && items[k] == list[i];
                if k == count - 1 {
                    let end = list.len() - 1;
                    assert(i != end);
                    assert(less(list[i], list[end]));
                    let other = choose|other: int| 0 <= other < count && items[other] == list[end];
                    if other < count - 1 {
                        assert(less(items[other], items[count - 1]));
                    }
                }
                assert(items[k] == list[i]);
            }
            ordered_lists_are_sublists(items, count - 1, list, less);
        }
    }
}

/// All reasons, in order.
pub open spec fn all_reasons() -> Seq<UnresolvedReason> {
    seq![
        UnresolvedReason::OpaqueInput,
        UnresolvedReason::ExternalCode,
        UnresolvedReason::ExternalMemory,
        UnresolvedReason::FunctionPointer,
        UnresolvedReason::CrossCrateBoundary,
        UnresolvedReason::AnalysisLimit,
        UnresolvedReason::UnsupportedConstruct,
    ]
}

/// Ordered reasons are among the sublists of all reasons.
pub proof fn ordered_reasons_are_sublists(reasons: Seq<UnresolvedReason>)
    requires
        reasons_in_order(reasons),
    ensures
        sublists(all_reasons(), 7).contains(reasons),
{
    let less = |a: UnresolvedReason, b: UnresolvedReason| reason_rank(a) < reason_rank(b);
    let items = all_reasons();
    assert forall|i: int| 0 <= i < reasons.len() implies exists|k: int|
        0 <= k < 7 && items[k] == #[trigger] reasons[i] by {
        assert(items[reason_rank(reasons[i])] == reasons[i]);
    }
    ordered_lists_are_sublists(items, 7, reasons, less);
}

/// Each of the first `count` lists of types with each list of reasons.
pub open spec fn flows_of(
    types: Seq<Seq<Seq<char>>>,
    reasons: Seq<Seq<UnresolvedReason>>,
    count: int,
) -> Seq<NamedModel>
    decreases count,
{
    if count <= 0 {
        Seq::empty()
    } else {
        flows_of(types, reasons, count - 1) + reasons.map_values(
            |list: Seq<UnresolvedReason>|
                NamedModel { concrete_types: types[count - 1], unresolved_reasons: list },
        )
    }
}

proof fn flows_are_there(
    types: Seq<Seq<Seq<char>>>,
    reasons: Seq<Seq<UnresolvedReason>>,
    count: int,
    flow: NamedModel,
)
    requires
        0 <= count <= types.len(),
        exists|place: int| 0 <= place < count && types[place] == flow.concrete_types,
        reasons.contains(flow.unresolved_reasons),
    ensures
        flows_of(types, reasons, count).contains(flow),
    decreases count,
{
    let place = choose|place: int| 0 <= place < count && types[place] == flow.concrete_types;
    let last = reasons.map_values(
        |list: Seq<UnresolvedReason>|
            NamedModel { concrete_types: types[count - 1], unresolved_reasons: list },
    );
    in_either(flows_of(types, reasons, count - 1), last, flow);
    if place == count - 1 {
        let spot = choose|spot: int|
            0 <= spot < reasons.len() && reasons[spot] == flow.unresolved_reasons;
        assert(last[spot] == flow);
    } else {
        flows_are_there(types, reasons, count - 1, flow);
    }
}

/// All flows of some types.
pub open spec fn all_flows(types: Seq<Seq<char>>) -> Seq<NamedModel> {
    let lists = sublists(types, types.len() as int);
    flows_of(lists, sublists(all_reasons(), 7), lists.len() as int)
}

/// Whether a flow is in order and holds some types only.
pub open spec fn is_flow_of(flow: NamedModel, types: Seq<Seq<char>>) -> bool {
    &&& texts_in_order(flow.concrete_types)
    &&& forall|index: int|
        0 <= index < flow.concrete_types.len() ==> types.contains(
            #[trigger] flow.concrete_types[index],
        )
    &&& reasons_in_order(flow.unresolved_reasons)
}

/// A flow of some types is among all flows of them.
pub proof fn flows_are_listed(types: Seq<Seq<char>>, flow: NamedModel)
    requires
        texts_in_order(types),
        is_flow_of(flow, types),
    ensures
        all_flows(types).contains(flow),
{
    let less = |a: Seq<char>, b: Seq<char>| text_less(a, b);
    let lists = sublists(types, types.len() as int);
    assert forall|a: Seq<char>, b: Seq<char>| #[trigger] less(a, b) implies !less(b, a) by {
        text_order_laws(a, b, b);
    }
    assert forall|i: int| 0 <= i < flow.concrete_types.len() implies exists|k: int|
        0 <= k < types.len() && types[k] == #[trigger] flow.concrete_types[i] by {
        assert(types.contains(flow.concrete_types[i]));
    }
    ordered_lists_are_sublists(types, types.len() as int, flow.concrete_types, less);
    ordered_reasons_are_sublists(flow.unresolved_reasons);
    flows_are_there(lists, sublists(all_reasons(), 7), lists.len() as int, flow);
}

/// Adding texts of a list of types keeps a list of them in order.
pub proof fn added_texts_are_ordered(
    values: Seq<Seq<char>>,
    more: Seq<Seq<char>>,
    count: int,
    types: Set<Seq<char>>,
)
    requires
        0 <= count <= more.len(),
        texts_in_order(values),
        values.to_set().subset_of(types),
        forall|index: int| 0 <= index < more.len() ==> types.contains(#[trigger] more[index]),
    ensures
        texts_in_order(with_texts(values, more, count)),
        with_texts(values, more, count).to_set().subset_of(types),
    decreases count,
{
    if count > 0 {
        added_texts_are_ordered(values, more, count - 1, types);
        let before = with_texts(values, more, count - 1);
        added_text_keeps_order(before, more[count - 1]);
        assert(types.contains(more[count - 1]));
    }
}

/// Adding reasons keeps them in order.
pub proof fn added_reasons_are_ordered(
    reasons: Seq<UnresolvedReason>,
    more: Seq<UnresolvedReason>,
    count: int,
)
    requires
        0 <= count <= more.len(),
        reasons_in_order(reasons),
    ensures
        reasons_in_order(with_reasons(reasons, more, count)),
    decreases count,
{
    if count > 0 {
        added_reasons_are_ordered(reasons, more, count - 1);
        added_reason_keeps_order(with_reasons(reasons, more, count - 1), more[count - 1]);
    }
}

proof fn listed_types_are_a_subset(values: Seq<Seq<char>>, types: Seq<Seq<char>>)
    ensures
        values.to_set().subset_of(types.to_set()) == (forall|index: int|
            0 <= index < values.len() ==> types.contains(#[trigger] values[index])),
{
    if values.to_set().subset_of(types.to_set()) {
        assert forall|index: int| 0 <= index < values.len() implies types.contains(
            #[trigger] values[index],
        ) by {
            assert(values.to_set().contains(values[index]));
        }
    } else {
        let item = choose|item: Seq<char>|
            values.to_set().contains(item) && !types.to_set().contains(item);
        let index = choose|index: int| 0 <= index < values.len() && values[index] == item;
        assert(!types.contains(values[index]));
    }
}

/// What a flow of some types holds in a context of flows of these types is
/// such a flow too.
pub proof fn resolved_flows_are_flows(
    flow: FlowModel,
    context: Seq<NamedModel>,
    count: int,
    types: Seq<Seq<char>>,
)
    requires
        0 <= count <= flow.parameters.len(),
        forall|index: int|
            0 <= index < flow.concrete_types.len() ==> types.contains(
                #[trigger] flow.concrete_types[index],
            ),
        forall|index: int| 0 <= index < context.len() ==> is_flow_of(#[trigger] context[index], types),
    ensures
        is_flow_of(resolved_to(flow, context, count), types),
    decreases count,
{
    let all = types.to_set();
    let result = resolved_to(flow, context, count);
    if count <= 0 {
        let none = Seq::<Seq<char>>::empty();
        assert(none.to_set().subset_of(all));
        added_texts_are_ordered(none, flow.concrete_types, flow.concrete_types.len() as int, all);
        added_reasons_are_ordered(
            Seq::empty(),
            flow.unresolved_reasons,
            flow.unresolved_reasons.len() as int,
        );
    } else {
        resolved_flows_are_flows(flow, context, count - 1, types);
        let before = resolved_to(flow, context, count - 1);
        let parameter = flow.parameters[count - 1] as int;
        listed_types_are_a_subset(before.concrete_types, types);
        if parameter < context.len() {
            let other = context[parameter];
            added_texts_are_ordered(
                before.concrete_types,
                other.concrete_types,
                other.concrete_types.len() as int,
                all,
            );
            added_reasons_are_ordered(
                before.unresolved_reasons,
                other.unresolved_reasons,
                other.unresolved_reasons.len() as int,
            );
        } else {
            added_reason_keeps_order(before.unresolved_reasons, UnresolvedReason::AnalysisLimit);
        }
    }
    listed_types_are_a_subset(result.concrete_types, types);
}

} // verus!
