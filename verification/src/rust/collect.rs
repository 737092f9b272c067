//! The function instances of a crate, as they are compared: assembled from
//! the bodies of the instances.
use crate::lists::views;
use crate::model::{same_span, SourceSpan, SpanModel, UnresolvedReason};
use crate::rust::analysis::{AnalysisModel, BodyDynAnalysis};
use crate::rust::dataflow::{CallKnowledge, KnowledgeModel};
use crate::rust::instances::{
    bodies_are_there, instances_of, list_instances, logical_bodies,
    source_logical_instance_bodies, summaries_of, summarize_instances, well_formed_items,
    CallSite, InstanceBody, ItemModel, LogicalModel, SiteModel, SourceLogicalInstanceBody,
};
use crate::rust::labels::{
    instance_display, instance_key, normalize_instance_display, normalize_instance_key,
    normalize_type_display, type_display,
};
use crate::rust::mir::{
    CallTerminator, CallTerminatorModel, Callee, MirType, Operand, OperandModel, Terminator,
    TerminatorModel, TypeModel,
};
use crate::rust::provenance::{
    resolve_symbolic_flow, substituted, unresolved_flow, DynFlow, DynModel,
};
use crate::rust::raw::{
    DispatchTable, RawCallModel, RawModel, RawSemanticCall, RawSemanticCallTarget,
    RawSemanticFunction, RawTargetModel, TableModel,
};
use crate::rust::respecialize::{sort_by_key, sorted_by_key};
use crate::rust::semantic::{ProgramModel, SemanticProgram};
use crate::rust::specialize::{specialize_semantic_functions, specialized};
use crate::sets::{add_texts, with_texts};
use crate::text::texts;
use vstd::prelude::*;

verus! {

/// Whether a stretch comes before another: by its start, then by its end.
pub open spec fn span_before(left: SpanModel, right: SpanModel) -> bool {
    if left.start_line != right.start_line {
        left.start_line < right.start_line
    } else if left.start_column != right.start_column {
        left.start_column < right.start_column
    } else if left.end_line != right.end_line {
        left.end_line < right.end_line
    } else {
        left.end_column < right.end_column
    }
}

/// Whether a stretch comes before another: by its start, then by its end.
pub fn span_comes_before(left: &SourceSpan, right: &SourceSpan) -> (result: bool)
    ensures
        result == span_before(left@, right@),
{
    if left.start_line != right.start_line {
        left.start_line < right.start_line
    } else if left.start_column != right.start_column {
        left.start_column < right.start_column
    } else if left.end_line != right.end_line {
        left.end_line < right.end_line
    } else {
        left.end_column < right.end_column
    }
}

/// How many calls at the front, from `index` on, are not after a stretch.
pub open spec fn call_position(calls: Seq<RawCallModel>, span: SpanModel, index: nat) -> nat
    decreases calls.len() - index,
{
    if index < calls.len() && !span_before(span, calls[index as int].span) {
        call_position(calls, span, index + 1)
    } else {
        index
    }
}

/// Ordered calls with the first `count` of more.
pub open spec fn with_calls(
    calls: Seq<RawCallModel>,
    more: Seq<RawCallModel>,
    count: int,
) -> Seq<RawCallModel>
    decreases count,
{
    if count <= 0 {
        calls
    } else {
        let before = with_calls(calls, more, count - 1);
        let call = more[count - 1];
        before.insert(call_position(before, call.span, 0) as int, call)
    }
}

fn insert_call(calls: &mut Vec<RawSemanticCall>, call: RawSemanticCall)
    ensures
        views(final(calls)@) == views(old(calls)@).insert(
            call_position(views(old(calls)@), call@.span, 0) as int,
            call@,
        ),
{
    let ghost before = views(calls@);
    let mut place: usize = 0;
    while place < calls.len() && !span_comes_before(&call.span, &calls[place].span)
        invariant
            place <= calls@.len(),
            before == views(calls@),
            call_position(before, call@.span, place as nat) == call_position(
                before,
                call@.span,
                0,
            ),
        decreases calls@.len() - place,
    {
        proof {
            assert(before[place as int] == calls@[place as int]@);
        }
        place += 1;
    }
    proof {
        if place < calls@.len() {
            assert(before[place as int] == calls@[place as int]@);
        }
    }
    let ghost model = call@;
    calls.insert(place, call);
    proof {
        assert(views(calls@) =~= before.insert(place as int, model));
    }
}

/// How many stretches at the front, from `index` on, are not after another.
pub open spec fn span_position(spans: Seq<SpanModel>, span: SpanModel, index: nat) -> nat
    decreases spans.len() - index,
{
    if index < spans.len() && !span_before(span, spans[index as int]) {
        span_position(spans, span, index + 1)
    } else {
        index
    }
}

/// Ordered stretches with the first `count` of more.
pub open spec fn with_spans(spans: Seq<SpanModel>, more: Seq<SpanModel>, count: int) -> Seq<
    SpanModel,
>
    decreases count,
{
    if count <= 0 {
        spans
    } else {
        let before = with_spans(spans, more, count - 1);
        before.insert(span_position(before, more[count - 1], 0) as int, more[count - 1])
    }
}

fn insert_spans(spans: &mut Vec<SourceSpan>, more: &Vec<SourceSpan>)
    ensures
        views(final(spans)@) == with_spans(
            views(old(spans)@),
            views(more@),
            more@.len() as int,
        ),
{
    let ghost start = views(spans@);
    let mut index: usize = 0;
    while index < more.len()
        invariant
            index <= more@.len(),
            views(spans@) == with_spans(start, views(more@), index as int),
        decreases more@.len() - index,
    {
        let span = &more[index];
        let ghost before = views(spans@);
        proof {
            assert(views(more@)[index as int] == span@);
        }
        let mut place: usize = 0;
        while place < spans.len() && !span_comes_before(span, &spans[place])
            invariant
                place <= spans@.len(),
                before == views(spans@),
                span_position(before, span@, place as nat) == span_position(before, span@, 0),
            decreases spans@.len() - place,
        {
            proof {
                assert(before[place as int] == spans@[place as int]@);
            }
            place += 1;
        }
        proof {
            if place < spans@.len() {
                assert(before[place as int] == spans@[place as int]@);
            }
        }
        spans.insert(place, span.clone());
        proof {
            assert(views(spans@) =~= before.insert(place as int, span@));
        }
        index += 1;
    }
}

/// The first `count` stretches without those that repeat the one before.
pub open spec fn without_repeats(spans: Seq<SpanModel>, count: int) -> Seq<SpanModel>
    decreases count,
{
    if count <= 0 {
        Seq::empty()
    } else {
        let before = without_repeats(spans, count - 1);
        if before.len() > 0 && same_span(before.last(), spans[count - 1]) {
            before
        } else {
            before.push(spans[count - 1])
        }
    }
}

fn drop_repeats(spans: &Vec<SourceSpan>) -> (result: Vec<SourceSpan>)
    ensures
        views(result@) == without_repeats(views(spans@), spans@.len() as int),
{
    let mut result: Vec<SourceSpan> = Vec::new();
    let mut index: usize = 0;
    proof {
        assert(views(result@) =~= Seq::empty());
    }
    while index < spans.len()
        invariant
            index <= spans@.len(),
            views(result@) == without_repeats(views(spans@), index as int),
        decreases spans@.len() - index,
    {
        let span = &spans[index];
        let ghost before = views(result@);
        proof {
            assert(views(spans@)[index as int] == span@);
            assert(before.len() == result@.len());
            if result@.len() > 0 {
                assert(before.last() == result@.last()@);
            }
        }
        let repeats = result.len() > 0 && result[result.len() - 1].same(span);
        if !repeats {
            result.push(span.clone());
            proof {
                assert(views(result@) =~= before.push(span@));
            }
        }
        index += 1;
    }
    result
}

/// What flows into the arguments of a call in a context.
pub open spec fn argument_flows(
    analysis: AnalysisModel,
    block: int,
    context: Seq<DynModel>,
) -> Seq<DynModel> {
    if 0 <= block < analysis.calls.len() {
        match analysis.calls[block] {
            Some(flows) => flows.map_values(|flow: DynModel| substituted(flow, context)),
            None => Seq::empty(),
        }
    } else {
        Seq::empty()
    }
}

fn find_argument_flows(analysis: &BodyDynAnalysis, block: usize, context: &Vec<DynFlow>) -> (result:
    Vec<DynFlow>)
    ensures
        views(result@) == argument_flows(analysis@, block as int, views(context@)),
{
    let mut result: Vec<DynFlow> = Vec::new();
    proof {
        assert(views(result@) =~= Seq::empty());
        assert(analysis@.calls.len() == analysis.calls@.len());
    }
    if block >= analysis.calls.len() {
        return result;
    }
    proof {
        assert(analysis@.calls[block as int] == analysis.calls@[block as int]@);
    }
    match &analysis.calls[block].arguments {
        Some(flows) => {
            let mut index: usize = 0;
            while index < flows.len()
                invariant
                    index <= flows@.len(),
                    result@.len() == index,
                    forall|k: int|
                        0 <= k < index ==> (#[trigger] result@[k])@ == substituted(
                            flows@[k]@,
                            views(context@),
                        ),
                decreases flows@.len() - index,
            {
                result.push(resolve_symbolic_flow(&flows[index], context));
                index += 1;
            }
            proof {
                assert(views(result@) =~= views(flows@).map_values(
                    |flow: DynModel| substituted(flow, views(context@)),
                ));
            }
        },
        None => {},
    }
    result
}

/// The types of the first `count` arguments as they are shown.
pub open spec fn argument_types(
    arguments: Seq<OperandModel>,
    crate_name: Seq<char>,
    count: int,
) -> Seq<Seq<char>>
    decreases count,
{
    if count <= 0 {
        Seq::empty()
    } else {
        let before = argument_types(arguments, crate_name, count - 1);
        match arguments[count - 1].ty {
            Some(ty) => before.push(type_display(ty.text, crate_name)),
            None => before,
        }
    }
}

fn show_argument_types(arguments: &Vec<Operand>, crate_name: &str) -> (result: Vec<String>)
    ensures
        texts(result@) == argument_types(
            views(arguments@),
            crate_name@,
            arguments@.len() as int,
        ),
{
    let mut result: Vec<String> = Vec::new();
    let mut index: usize = 0;
    proof {
        assert(texts(result@) =~= Seq::empty());
    }
    while index < arguments.len()
        invariant
            index <= arguments@.len(),
            texts(result@) == argument_types(views(arguments@), crate_name@, index as int),
        decreases arguments@.len() - index,
    {
        let ghost before = texts(result@);
        proof {
            assert(views(arguments@)[index as int] == arguments@[index as int]@);
        }
        match &arguments[index].ty {
            Some(ty) => {
                let shown = normalize_type_display(ty.text.as_str(), crate_name);
                let ghost model = shown@;
                result.push(shown);
                proof {
                    assert(texts(result@) =~= before.push(model));
                }
            },
            None => {},
        }
        index += 1;
    }
    result
}

/// What a call reaches.
pub open spec fn raw_target(
    site: SiteModel,
    callee: Option<Callee>,
    flows: Seq<DynModel>,
    crate_name: Seq<char>,
) -> RawTargetModel {
    match site.target {
        Some(name) => {
            let key = instance_key(name);
            let display = instance_display(name, crate_name);
            match callee {
                Some(callee) if callee.is_virtual => RawTargetModel::Dynamic {
                    dispatch: callee.instance,
                    key,
                    display,
                    receiver: if flows.len() > 0 {
                        flows[0]
                    } else {
                        unresolved_flow(UnresolvedReason::AnalysisLimit)
                    },
                },
                _ => RawTargetModel::Direct { key, display },
            }
        },
        None => match site.signature {
            Some(signature) => RawTargetModel::Indirect {
                signature: type_display(signature, crate_name),
            },
            None => RawTargetModel::Unresolved,
        },
    }
}

fn find_target(
    site: &CallSite,
    callee: Option<Callee>,
    flows: &Vec<DynFlow>,
    crate_name: &str,
) -> (result: RawSemanticCallTarget)
    ensures
        result@ == raw_target(site@, callee, views(flows@), crate_name@),
{
    match &site.target {
        Some(name) => {
            let key = normalize_instance_key(name.as_str());
            let display = normalize_instance_display(name.as_str(), crate_name);
            match callee {
                Some(callee) => {
                    if callee.is_virtual {
                        proof {
                            assert(views(flows@).len() == flows@.len());
                            if flows@.len() > 0 {
                                assert(views(flows@)[0] == flows@[0]@);
                            }
                        }
                        let receiver = if flows.len() > 0 {
                            flows[0].clone()
                        } else {
                            DynFlow::unresolved(UnresolvedReason::AnalysisLimit)
                        };
                        RawSemanticCallTarget::Dynamic {
                            dispatch: callee.instance,
                            key,
                            display,
                            receiver,
                        }
                    } else {
                        RawSemanticCallTarget::Direct { key, display }
                    }
                },
                None => RawSemanticCallTarget::Direct { key, display },
            }
        },
        None => match &site.signature {
            Some(signature) => RawSemanticCallTarget::Indirect {
                signature: normalize_type_display(signature.as_str(), crate_name),
            },
            None => RawSemanticCallTarget::Unresolved,
        },
    }
}

/// A call in a body.
pub open spec fn raw_call(
    site: SiteModel,
    call: CallTerminatorModel,
    analysis: AnalysisModel,
    context: Seq<DynModel>,
    crate_name: Seq<char>,
) -> RawCallModel {
    let flows = argument_flows(analysis, site.block as int, context);
    RawCallModel {
        target: raw_target(site, call.callee, flows, crate_name),
        definition_name: site.definition_name,
        span: site.span,
        argument_types: argument_types(
            call.arguments,
            crate_name,
            call.arguments.len() as int,
        ),
        argument_flows: flows,
    }
}

/// The calls at the first `count` sites of a body.
pub open spec fn body_calls(
    item: ItemModel,
    analysis: AnalysisModel,
    context: Seq<DynModel>,
    crate_name: Seq<char>,
    count: int,
) -> Seq<RawCallModel>
    decreases count,
{
    if count <= 0 {
        Seq::empty()
    } else {
        let before = body_calls(item, analysis, context, crate_name, count - 1);
        let site = item.sites[count - 1];
        if site.block < item.body.blocks.len() {
            match item.body.blocks[site.block as int].terminator {
                TerminatorModel::Call(call) => before.push(
                    raw_call(site, call, analysis, context, crate_name),
                ),
                _ => before,
            }
        } else {
            before
        }
    }
}

fn make_call(
    site: &CallSite,
    call: &CallTerminator,
    analysis: &BodyDynAnalysis,
    context: &Vec<DynFlow>,
    crate_name: &str,
) -> (result: RawSemanticCall)
    ensures
        result@ == raw_call(site@, call@, analysis@, views(context@), crate_name@),
{
    proof {
        assert(call@.arguments.len() == call.arguments@.len());
    }
    let flows = find_argument_flows(analysis, site.block, context);
    RawSemanticCall {
        target: find_target(site, call.callee, &flows, crate_name),
        definition_name: site.definition_name.clone(),
        span: site.span.clone(),
        argument_types: show_argument_types(&call.arguments, crate_name),
        argument_flows: flows,
    }
}

/// Ordered calls with those at the first `count` sites of a body.
pub open spec fn with_body_calls(
    calls: Seq<RawCallModel>,
    item: ItemModel,
    analysis: AnalysisModel,
    context: Seq<DynModel>,
    crate_name: Seq<char>,
) -> Seq<RawCallModel> {
    let more = body_calls(item, analysis, context, crate_name, item.sites.len() as int);
    with_calls(calls, more, more.len() as int)
}

proof fn earlier_calls_stay(
    calls: Seq<RawCallModel>,
    more: Seq<RawCallModel>,
    call: RawCallModel,
    count: int,
)
    requires
        0 <= count <= more.len(),
    ensures
        with_calls(calls, more.push(call), count) == with_calls(calls, more, count),
    decreases count,
{
    if count > 0 {
        earlier_calls_stay(calls, more, call, count - 1);
    }
}

fn add_body_calls(
    calls: &mut Vec<RawSemanticCall>,
    item: &InstanceBody,
    analysis: &BodyDynAnalysis,
    context: &Vec<DynFlow>,
    crate_name: &str,
)
    ensures
        views(final(calls)@) == with_body_calls(
            views(old(calls)@),
            item@,
            analysis@,
            views(context@),
            crate_name@,
        ),
{
    let ghost start = views(calls@);
    let mut index: usize = 0;
    proof {
        assert(item@.sites.len() == item.sites@.len());
        assert(item@.body.blocks.len() == item.body.blocks@.len());
    }
    while index < item.sites.len()
        invariant
            index <= item.sites@.len(),
            item@.body.blocks.len() == item.body.blocks@.len(),
            views(calls@) == ({
                let more = body_calls(
                    item@,
                    analysis@,
                    views(context@),
                    crate_name@,
                    index as int,
                );
                with_calls(start, more, more.len() as int)
            }),
        decreases item.sites@.len() - index,
    {
        let site = &item.sites[index];
        let ghost more = body_calls(item@, analysis@, views(context@), crate_name@, index as int);
        proof {
            assert(item@.sites[index as int] == site@);
        }
        if site.block < item.body.blocks.len() {
            proof {
                assert(item@.body.blocks[site.block as int]
                    == item.body.blocks@[site.block as int]@);
            }
            match &item.body.blocks[site.block].terminator {
                Terminator::Call(call) => {
                    let made = make_call(site, call, analysis, context, crate_name);
                    proof {
                        earlier_calls_stay(start, more, made@, more.len() as int);
                        assert(more.push(made@).last() == made@);
                    }
                    insert_call(calls, made);
                },
                _ => {},
            }
        }
        index += 1;
    }
}

/// What the first `count` bodies of a function call, in order.
pub open spec fn all_calls(
    items: Seq<ItemModel>,
    bodies: Seq<LogicalModel>,
    crate_name: Seq<char>,
    count: int,
) -> Seq<RawCallModel>
    decreases count,
{
    if count <= 0 {
        Seq::empty()
    } else {
        let body = bodies[count - 1];
        with_body_calls(
            all_calls(items, bodies, crate_name, count - 1),
            items[body.item],
            body.analysis,
            body.context,
            crate_name,
        )
    }
}

/// Where the first `count` bodies of a function build values, in order.
pub open spec fn all_constructor_spans(
    items: Seq<ItemModel>,
    bodies: Seq<LogicalModel>,
    count: int,
) -> Seq<SpanModel>
    decreases count,
{
    if count <= 0 {
        Seq::empty()
    } else {
        let more = items[bodies[count - 1].item].constructor_spans;
        with_spans(
            all_constructor_spans(items, bodies, count - 1),
            more,
            more.len() as int,
        )
    }
}

/// The types whose values the first `count` bodies of a function hold, in
/// order.
pub open spec fn all_constructor_names(
    items: Seq<ItemModel>,
    bodies: Seq<LogicalModel>,
    count: int,
) -> Seq<Seq<char>>
    decreases count,
{
    if count <= 0 {
        Seq::empty()
    } else {
        let more = items[bodies[count - 1].item].constructor_names;
        with_texts(
            all_constructor_names(items, bodies, count - 1),
            more,
            more.len() as int,
        )
    }
}

/// The types of parameters as they are shown.
pub open spec fn parameter_types(types: Seq<TypeModel>, crate_name: Seq<char>) -> Seq<Seq<char>> {
    types.map_values(|ty: TypeModel| type_display(ty.text, crate_name))
}

fn show_parameter_types(types: &Vec<MirType>, crate_name: &str) -> (result: Vec<String>)
    ensures
        texts(result@) == parameter_types(views(types@), crate_name@),
{
    let mut result: Vec<String> = Vec::new();
    let mut index: usize = 0;
    while index < types.len()
        invariant
            index <= types@.len(),
            result@.len() == index,
            forall|k: int|
                0 <= k < index ==> (#[trigger] result@[k])@ == type_display(
                    types@[k]@.text,
                    crate_name@,
                ),
        decreases types@.len() - index,
    {
        result.push(normalize_type_display(types[index].text.as_str(), crate_name));
        index += 1;
    }
    proof {
        assert(texts(result@) =~= parameter_types(views(types@), crate_name@));
    }
    result
}

/// An instance with all that it stands for in the source.
#[verifier::opaque]
pub open spec fn raw_function(
    items: Seq<ItemModel>,
    known: KnowledgeModel,
    item: ItemModel,
    crate_name: Seq<char>,
) -> RawModel {
    let bodies = logical_bodies(items, known, item.instance);
    let count = bodies.len() as int;
    let spans = all_constructor_spans(items, bodies, count);
    RawModel {
        key: instance_key(item.name),
        display: instance_display(item.name, crate_name),
        definition_name: item.definition_name,
        body_span: item.span,
        calls: all_calls(items, bodies, crate_name, count),
        constructor_spans: without_repeats(spans, spans.len() as int),
        constructor_names: all_constructor_names(items, bodies, count),
        parameter_types: parameter_types(item.body.argument_types, crate_name),
    }
}

fn gather_calls(
    items: &Vec<InstanceBody>,
    bodies: &Vec<SourceLogicalInstanceBody>,
    crate_name: &str,
) -> (calls: Vec<RawSemanticCall>)
    requires
        bodies_are_there(bodies@, items@.len()),
    ensures
        views(calls@) == all_calls(
            views(items@),
            views(bodies@),
            crate_name@,
            bodies@.len() as int,
        ),
{
    let ghost model = views(items@);
    let ghost places = views(bodies@);
    let mut calls: Vec<RawSemanticCall> = Vec::new();
    let mut index: usize = 0;
    proof {
        assert(views(calls@) =~= Seq::empty());
        assert(model.len() == items@.len());
    }
    while index < bodies.len()
        invariant
            index <= bodies@.len(),
            model == views(items@),
            model.len() == items@.len(),
            places == views(bodies@),
            bodies_are_there(bodies@, items@.len()),
            views(calls@) == all_calls(model, places, crate_name@, index as int),
        decreases bodies@.len() - index,
    {
        let body = &bodies[index];
        proof {
            assert(places[index as int] == body@);
            assert(bodies@[index as int].item < model.len());
            assert(model[body.item as int] == items@[body.item as int]@);
        }
        add_body_calls(
            &mut calls,
            &items[body.item],
            &body.analysis,
            &body.context,
            crate_name,
        );
        index += 1;
    }
    calls
}

fn gather_constructors(
    items: &Vec<InstanceBody>,
    bodies: &Vec<SourceLogicalInstanceBody>,
) -> (result: (Vec<SourceSpan>, Vec<String>))
    requires
        bodies_are_there(bodies@, items@.len()),
    ensures
        views(result.0@) == all_constructor_spans(
            views(items@),
            views(bodies@),
            bodies@.len() as int,
        ),
        texts(result.1@) == all_constructor_names(
            views(items@),
            views(bodies@),
            bodies@.len() as int,
        ),
{
    let ghost model = views(items@);
    let ghost places = views(bodies@);
    let mut spans: Vec<SourceSpan> = Vec::new();
    let mut names: Vec<String> = Vec::new();
    let mut index: usize = 0;
    proof {
        assert(views(spans@) =~= Seq::empty());
        assert(texts(names@) =~= Seq::empty());
    }
    while index < bodies.len()
        invariant
            index <= bodies@.len(),
            model == views(items@),
            places == views(bodies@),
            bodies_are_there(bodies@, items@.len()),
            views(spans@) == all_constructor_spans(model, places, index as int),
            texts(names@) == all_constructor_names(model, places, index as int),
        decreases bodies@.len() - index,
    {
        let part = &items[bodies[index].item];
        proof {
            assert(places[index as int] == bodies@[index as int]@);
            assert(model[bodies@[index as int].item as int] == part@);
            assert(part@.constructor_spans.len() == part.constructor_spans@.len());
            assert(part@.constructor_names.len() == part.constructor_names@.len());
        }
        insert_spans(&mut spans, &part.constructor_spans);
        add_texts(&mut names, &part.constructor_names);
        index += 1;
    }
    (spans, names)
}

fn make_function(
    items: &Vec<InstanceBody>,
    known: &CallKnowledge,
    item: &InstanceBody,
    crate_name: &str,
) -> (result: RawSemanticFunction)
    requires
        well_formed_items(views(items@)),
    ensures
        result@ == raw_function(views(items@), known@, item@, crate_name@),
{
    let bodies = source_logical_instance_bodies(items, known, item.instance);
    proof {
        reveal(raw_function);
        assert(views(bodies@).len() == bodies@.len());
        assert(views(items@).len() == items@.len());
    }
    let calls = gather_calls(items, &bodies, crate_name);
    let (spans, names) = gather_constructors(items, &bodies);
    proof {
        assert(views(spans@).len() == spans@.len());
    }
    RawSemanticFunction {
        key: normalize_instance_key(item.name.as_str()),
        display: normalize_instance_display(item.name.as_str(), crate_name),
        definition_name: item.definition_name.clone(),
        body_span: item.span.clone(),
        calls,
        constructor_spans: drop_repeats(&spans),
        constructor_names: names,
        parameter_types: show_parameter_types(&item.body.argument_types, crate_name),
    }
}

/// Whether an instance is a coroutine that some body makes: then it is part of
/// the function that makes it.
pub open spec fn is_folded(items: Seq<ItemModel>, instance: usize) -> bool {
    exists|index: int|
        0 <= index < items.len() && (#[trigger] items[index]).coroutines.contains(instance)
}

fn is_folded_instance(items: &Vec<InstanceBody>, instance: usize) -> (result: bool)
    ensures
        result == is_folded(views(items@), instance),
{
    let mut index: usize = 0;
    while index < items.len()
        invariant
            index <= items@.len(),
            forall|k: int|
                0 <= k < index ==> !(#[trigger] views(items@)[k]).coroutines.contains(instance),
        decreases items@.len() - index,
    {
        proof {
            assert(views(items@)[index as int] == items@[index as int]@);
        }
        if crate::rust::instances::has_instance(&items[index].coroutines, instance) {
            return true;
        }
        index += 1;
    }
    false
}

/// The functions of the source among the first `count` instances.
pub open spec fn raw_functions(
    items: Seq<ItemModel>,
    known: KnowledgeModel,
    crate_name: Seq<char>,
    count: int,
) -> Seq<RawModel>
    decreases count,
{
    if count <= 0 {
        Seq::empty()
    } else if is_folded(items, items[count - 1].instance) {
        raw_functions(items, known, crate_name, count - 1)
    } else {
        raw_functions(items, known, crate_name, count - 1).push(
            raw_function(items, known, items[count - 1], crate_name),
        )
    }
}

/// The function instances of a crate.
pub open spec fn collected(items: Seq<ItemModel>, table: TableModel) -> ProgramModel {
    let known = KnowledgeModel { summaries: summaries_of(items), analyzed: instances_of(items) };
    let functions = specialized(
        raw_functions(items, known, table.crate_name, items.len() as int),
        table,
    );
    ProgramModel {
        crate_name: table.crate_name,
        functions: sorted_by_key(functions, functions.len() as int),
    }
}

fn make_functions(items: &Vec<InstanceBody>, known: &CallKnowledge, crate_name: &str) -> (result:
    Vec<RawSemanticFunction>)
    requires
        well_formed_items(views(items@)),
    ensures
        views(result@) == raw_functions(
            views(items@),
            known@,
            crate_name@,
            items@.len() as int,
        ),
{
    let mut functions: Vec<RawSemanticFunction> = Vec::new();
    let mut index: usize = 0;
    proof {
        assert(views(functions@) =~= Seq::empty());
    }
    while index < items.len()
        invariant
            index <= items@.len(),
            well_formed_items(views(items@)),
            views(functions@) == raw_functions(
                views(items@),
                known@,
                crate_name@,
                index as int,
            ),
        decreases items@.len() - index,
    {
        let item = &items[index];
        let ghost before = views(functions@);
        proof {
            assert(views(items@)[index as int] == item@);
        }
        if !is_folded_instance(items, item.instance) {
            let function = make_function(items, known, item, crate_name);
            let ghost model = function@;
            functions.push(function);
            proof {
                assert(views(functions@) =~= before.push(model));
            }
        }
        index += 1;
    }
    functions
}

/// Assembles the function instances of a crate from their bodies.
pub fn collect_instances(items: &Vec<InstanceBody>, table: &DispatchTable) -> (result:
    SemanticProgram)
    requires
        well_formed_items(views(items@)),
    ensures
        result@ == collected(views(items@), table@),
{
    let summaries = summarize_instances(items);
    let instances = list_instances(items);
    let known = CallKnowledge { summaries: &summaries, analyzed: &instances };
    let functions = make_functions(items, &known, table.crate_name.as_str());
    let specialized = specialize_semantic_functions(&functions, table);
    proof {
        assert(views(items@).len() == items@.len());
        assert(views(specialized@).len() == specialized@.len());
    }
    SemanticProgram {
        crate_name: table.crate_name.clone(),
        functions: sort_by_key(&specialized),
    }
}

/// How often an instance of a definition led to another instance of it: the
/// length of its name, how often the name grew, and how often it recurred.
#[derive(Clone, Copy, Debug, PartialEq, Eq, Structural)]
pub struct Expansion {
    pub size: usize,
    pub growth: usize,
    pub recursion: usize,
}

/// How often the name of an instance can grow from one to the next.
pub const MAX_GROWING_INSTANCE_CHAIN: usize = 8;

/// How often a function can lead to another instance of it.
pub const MAX_NAMED_INSTANCE_RECURSION: usize = 8;

/// How often a closure or a coroutine can lead to another instance of it.
pub const MAX_GENERATED_INSTANCE_RECURSION: usize = 64;

/// Whether a definition is a closure or a coroutine.
pub open spec fn is_generated(definition_name: Seq<char>) -> bool {
    crate::text::contains(definition_name, "{closure"@) || crate::text::contains(
        definition_name,
        "{async"@,
    ) || crate::text::contains(definition_name, "{coroutine"@)
}

/// What an instance with a name of a size adds to the history of its
/// definition.
pub open spec fn next_expansion(history: Option<Expansion>, size: usize) -> Expansion {
    match history {
        None => Expansion { size, growth: 0, recursion: 0 },
        Some(before) => Expansion {
            size,
            growth: crate::rust::respecialize::capped(
                before.growth + if size > before.size {
                    1int
                } else {
                    0int
                },
            ) as usize,
            recursion: crate::rust::respecialize::capped(before.recursion + 1) as usize,
        },
    }
}

/// Whether an instance is still looked at: its definition must not have led to
/// instances with ever longer names, nor to itself too often.
pub open spec fn is_expanded(definition_name: Seq<char>, expansion: Expansion) -> bool {
    expansion.growth < MAX_GROWING_INSTANCE_CHAIN && expansion.recursion < (if is_generated(
        definition_name,
    ) {
        MAX_GENERATED_INSTANCE_RECURSION
    } else {
        MAX_NAMED_INSTANCE_RECURSION
    })
}

/// The history of a definition with one more instance, unless it is not to be
/// looked at any more.
pub fn expand_instance(definition_name: &str, history: Option<Expansion>, size: usize) -> (result:
    Option<Expansion>)
    ensures
        result == (if is_expanded(definition_name@, next_expansion(history, size)) {
            Some(next_expansion(history, size))
        } else {
            None
        }),
{
    let next = match history {
        None => Expansion { size, growth: 0, recursion: 0 },
        Some(before) => Expansion {
            size,
            growth: if size > before.size {
                before.growth.saturating_add(1)
            } else {
                before.growth
            },
            recursion: before.recursion.saturating_add(1),
        },
    };
    let generated = crate::text::contains_text(definition_name, "{closure")
        || crate::text::contains_text(definition_name, "{async")
        || crate::text::contains_text(definition_name, "{coroutine");
    let limit: usize = if generated {
        MAX_GENERATED_INSTANCE_RECURSION
    } else {
        MAX_NAMED_INSTANCE_RECURSION
    };
    if next.growth < MAX_GROWING_INSTANCE_CHAIN && next.recursion < limit {
        Some(next)
    } else {
        None
    }
}

} // verus!
