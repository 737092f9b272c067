//! Specializing OCaml functions for the callable values that they are called
//! with.
use crate::lists::views;
use crate::model::{
    candidate_models, reason_text, symbol_text, CallLabel, CallSite, CallSyntax, CallTarget,
    CandidateModel, DispatchCandidate, DispatchEvidence, FactModel, LabelModel, LanguageFact,
    LanguageId, SiteModel, SourceSpan, SpanModel, SymbolId, SymbolModel, SyntaxModel, TargetModel,
    UnresolvedReason, visible_syntax,
};
use crate::ocaml::bindings::{BindingModel, OcamlParameterKind};
use crate::ocaml::callable::{
    empty_flow, find_flow_at, flow_at, ocaml_module_flow_path, symbol_module, unknown_flow,
    CallableFlow, FlowModel, FlowPlace, IndexModel, OcamlFlowIndex, PlaceModel,
};
use crate::ocaml::flow::{argument_callable_flow, argument_flow, passed, passed_argument};
use crate::ocaml::labels::{
    call_arguments, candidate_label, ocaml_call_arguments, ocaml_candidate_call_label,
};
use crate::ocaml::parameters::{
    called_binding, called_ocaml_parameter_index, ocaml_parameters, parameters_of,
};
use crate::ocaml::aliases::joined_lists;
use crate::ocaml::scopes::{local_value, scoped_ocaml_local_value};
use crate::ocaml::symbols::{
    find_function_at, function_at, local_target, resolve, resolved, target_function,
};
use crate::paths::some_texts;
use crate::rust::calls::resolution_of;
use crate::text::{concat_texts, decimal, decimal_text, join_texts, joined, texts};
use vstd::prelude::*;

verus! {

/// The most nested steps that a callable value is followed.
pub const FLOW_LIMIT: usize = 0xffff_ffff;

/// A parameter that a function calls, or hands on to one that calls it.
#[derive(Debug)]
pub struct CalledParameter {
    pub function: SymbolId,
    pub parameter: usize,
}

impl View for CalledParameter {
    type V = (SymbolModel, usize);

    open spec fn view(&self) -> (SymbolModel, usize) {
        (self.function@, self.parameter)
    }
}

/// Whether a parameter of a function is called.
pub fn parameter_is_called(called: &Vec<CalledParameter>, function: &SymbolId, parameter: usize) -> (result:
    bool)
    ensures
        result == views(called@).contains((function@, parameter)),
{
    let ghost model = views(called@);
    let mut index: usize = 0;
    while index < called.len()
        invariant
            index <= called@.len(),
            model == views(called@),
            forall|k: int| 0 <= k < index ==> #[trigger] model[k] != (function@, parameter),
        decreases called@.len() - index,
    {
        proof {
            assert(model[index as int] == called@[index as int]@);
        }
        if called[index].parameter == parameter && called[index].function.same(function) {
            proof {
                assert(model[index as int] == (function@, parameter));
            }
            return true;
        }
        index += 1;
    }
    false
}

/// A call of a function of the program, with its arguments as they are
/// written.
#[derive(Debug)]
pub struct OcamlCallFlow {
    pub caller: SymbolId,
    pub target: SymbolId,
    pub arguments: Vec<String>,
    pub span: SourceSpan,
}

pub struct CallFlowModel {
    pub caller: SymbolModel,
    pub target: SymbolModel,
    pub arguments: Seq<Seq<char>>,
    pub span: SpanModel,
}

impl View for OcamlCallFlow {
    type V = CallFlowModel;

    open spec fn view(&self) -> CallFlowModel {
        CallFlowModel {
            caller: self.caller@,
            target: self.target@,
            arguments: texts(self.arguments@),
            span: self.span@,
        }
    }
}

/// The values that a function is called with from outside: nothing is known
/// of those that it calls.
pub open spec fn root_flows(
    bindings: Seq<BindingModel>,
    id: SymbolModel,
    called: Seq<(SymbolModel, usize)>,
    count: int,
) -> Seq<FlowModel>
    decreases count,
{
    if count <= 0 {
        Seq::empty()
    } else {
        root_flows(bindings, id, called, count - 1).push(
            if called.contains((id, (count - 1) as usize)) {
                unknown_flow(UnresolvedReason::OpaqueInput)
            } else {
                empty_flow()
            },
        )
    }
}

/// The values that a function is called with from outside.
pub open spec fn root_context(
    index: IndexModel,
    called: Seq<(SymbolModel, usize)>,
    id: SymbolModel,
) -> Seq<FlowModel> {
    let bindings = parameters_of(index.facts, id);
    root_flows(bindings, id, called, bindings.len() as int)
}

/// The values that a function is called with from outside.
pub fn root_ocaml_context(
    index: &OcamlFlowIndex,
    called: &Vec<CalledParameter>,
    id: &SymbolId,
) -> (result: Vec<CallableFlow>)
    ensures
        views(result@) == root_context(index@, views(called@), id@),
{
    let bindings = ocaml_parameters(index.facts, id);
    let mut result: Vec<CallableFlow> = Vec::new();
    let mut next: usize = 0;
    proof {
        assert(views(result@) =~= Seq::empty());
        assert(views(bindings@).len() == bindings@.len());
    }
    while next < bindings.len()
        invariant
            next <= bindings@.len(),
            views(result@) == root_flows(views(bindings@), id@, views(called@), next as int),
        decreases bindings@.len() - next,
    {
        let ghost before = views(result@);
        let flow = if parameter_is_called(called, id, next) {
            CallableFlow::unknown(UnresolvedReason::OpaqueInput)
        } else {
            CallableFlow::empty()
        };
        let ghost model = flow@;
        result.push(flow);
        proof {
            assert(views(result@) =~= before.push(model));
        }
        next += 1;
    }
    result
}

/// The values that the first `count` bindings of a function have in a call.
pub open spec fn call_flows(
    index: IndexModel,
    place: PlaceModel,
    bindings: Seq<BindingModel>,
    values: Seq<Seq<char>>,
    id: SymbolModel,
    called: Seq<(SymbolModel, usize)>,
    count: int,
) -> Seq<FlowModel>
    decreases count,
{
    if count <= 0 {
        Seq::empty()
    } else {
        call_flows(index, place, bindings, values, id, called, count - 1).push(
            if !called.contains((id, (count - 1) as usize)) {
                empty_flow()
            } else {
                match passed(values, bindings[count - 1]) {
                    Some(value) => argument_flow(index, place, value, FLOW_LIMIT as nat),
                    None => unknown_flow(UnresolvedReason::AnalysisLimit),
                }
            },
        )
    }
}

/// The values that a function has in a call.
pub open spec fn call_context(
    index: IndexModel,
    place: PlaceModel,
    values: Seq<Seq<char>>,
    id: SymbolModel,
    called: Seq<(SymbolModel, usize)>,
) -> Seq<FlowModel> {
    let bindings = parameters_of(index.facts, id);
    call_flows(index, place, bindings, values, id, called, bindings.len() as int)
}

/// Finds the values that a function has in a call.
pub fn ocaml_call_context(
    index: &OcamlFlowIndex,
    place: &FlowPlace,
    values: &Vec<String>,
    id: &SymbolId,
    called: &Vec<CalledParameter>,
) -> (result: Vec<CallableFlow>)
    ensures
        views(result@) == call_context(index@, place@, texts(values@), id@, views(called@)),
{
    let bindings = ocaml_parameters(index.facts, id);
    let mut result: Vec<CallableFlow> = Vec::new();
    let mut next: usize = 0;
    proof {
        assert(views(result@) =~= Seq::empty());
        assert(views(bindings@).len() == bindings@.len());
    }
    while next < bindings.len()
        invariant
            next <= bindings@.len(),
            views(result@) == call_flows(
                index@,
                place@,
                views(bindings@),
                texts(values@),
                id@,
                views(called@),
                next as int,
            ),
        decreases bindings@.len() - next,
    {
        let ghost before = views(result@);
        proof {
            assert(views(bindings@)[next as int] == bindings@[next as int]@);
        }
        let flow = if !parameter_is_called(called, id, next) {
            CallableFlow::empty()
        } else {
            match passed_argument(values, &bindings[next]) {
                Some(value) => argument_callable_flow(index, place, value.as_str(), FLOW_LIMIT),
                None => CallableFlow::unknown(UnresolvedReason::AnalysisLimit),
            }
        };
        let ghost model = flow@;
        result.push(flow);
        proof {
            assert(views(result@) =~= before.push(model));
        }
        next += 1;
    }
    result
}

/// The texts of symbols.
pub open spec fn symbol_texts(symbols: Seq<SymbolModel>) -> Seq<Seq<char>> {
    symbols.map_values(|symbol: SymbolModel| symbol_text(symbol))
}

/// The texts of reasons, each behind a question mark.
pub open spec fn doubt_texts(reasons: Seq<UnresolvedReason>) -> Seq<Seq<char>> {
    reasons.map_values(|reason: UnresolvedReason| "?"@ + reason_text(reason))
}

/// A value as text.
pub open spec fn flow_text(flow: FlowModel) -> Seq<char> {
    joined(symbol_texts(flow.candidates) + doubt_texts(flow.reasons), "|"@)
}

fn make_flow_text(flow: &CallableFlow) -> (result: String)
    ensures
        result@ == flow_text(flow@),
{
    let ghost model = flow@;
    let mut values: Vec<String> = Vec::new();
    let mut index: usize = 0;
    while index < flow.candidates.len()
        invariant
            index <= flow.candidates@.len(),
            values@.len() == index,
            forall|k: int|
                0 <= k < index ==> (#[trigger] values@[k])@ == symbol_text(flow.candidates@[k]@),
        decreases flow.candidates@.len() - index,
    {
        values.push(flow.candidates[index].to_text());
        index += 1;
    }
    proof {
        assert(texts(values@) =~= symbol_texts(model.candidates) + doubt_texts(
            model.reasons,
        ).take(0));
    }
    let mut next: usize = 0;
    while next < flow.unresolved_reasons.len()
        invariant
            next <= flow.unresolved_reasons@.len(),
            model == flow@,
            texts(values@) == symbol_texts(model.candidates) + doubt_texts(model.reasons).take(
                next as int,
            ),
        decreases flow.unresolved_reasons@.len() - next,
    {
        let ghost before = texts(values@);
        let text = concat_texts("?", flow.unresolved_reasons[next].to_text().as_str());
        let ghost added = text@;
        values.push(text);
        proof {
            assert(texts(values@) =~= before.push(added));
            assert(doubt_texts(model.reasons).take(next + 1) =~= doubt_texts(
                model.reasons,
            ).take(next as int).push(added));
            assert(symbol_texts(model.candidates) + doubt_texts(model.reasons).take(next + 1)
                =~= before.push(added));
        }
        next += 1;
    }
    proof {
        assert(doubt_texts(model.reasons).take(next as int) =~= doubt_texts(model.reasons));
    }
    join_texts(&values, "|")
}

/// The values of the first `count` parameters that are called, as text.
pub open spec fn context_texts(
    id: SymbolModel,
    context: Seq<FlowModel>,
    called: Seq<(SymbolModel, usize)>,
    count: int,
) -> Seq<Seq<char>>
    decreases count,
{
    if count <= 0 {
        Seq::empty()
    } else {
        let before = context_texts(id, context, called, count - 1);
        if called.contains((id, (count - 1) as usize)) {
            before.push(decimal((count - 1) as nat) + "="@ + flow_text(context[count - 1]))
        } else {
            before
        }
    }
}

/// The identity of a function that is called with some values: its name says
/// what it calls.
pub open spec fn specialized_id(
    id: SymbolModel,
    context: Seq<FlowModel>,
    called: Seq<(SymbolModel, usize)>,
) -> SymbolModel {
    let values = context_texts(id, context, called, context.len() as int);
    if values.len() == 0 {
        id
    } else {
        SymbolModel { name: id.name + "#ctx["@ + joined(values, ","@) + "]"@, ..id }
    }
}

/// The identity of a function that is called with some values.
pub fn specialized_ocaml_id(
    id: &SymbolId,
    context: &Vec<CallableFlow>,
    called: &Vec<CalledParameter>,
) -> (result: SymbolId)
    ensures
        result@ == specialized_id(id@, views(context@), views(called@)),
{
    let mut values: Vec<String> = Vec::new();
    let mut next: usize = 0;
    proof {
        assert(texts(values@) =~= Seq::empty());
        assert(views(context@).len() == context@.len());
    }
    while next < context.len()
        invariant
            next <= context@.len(),
            texts(values@) == context_texts(id@, views(context@), views(called@), next as int),
        decreases context@.len() - next,
    {
        proof {
            assert(views(context@)[next as int] == context@[next as int]@);
        }
        if parameter_is_called(called, id, next) {
            let ghost before = texts(values@);
            let mut text = decimal_text(next);
            text.append("=");
            text.append(make_flow_text(&context[next]).as_str());
            let ghost added = text@;
            values.push(text);
            proof {
                assert(texts(values@) =~= before.push(added));
            }
        }
        next += 1;
    }
    proof {
        assert(texts(values@).len() == values@.len());
    }
    let mut result = id.clone();
    if values.len() > 0 {
        let mut name = id.name.clone();
        name.append("#ctx[");
        name.append(join_texts(&values, ",").as_str());
        name.append("]");
        result.name = name;
    }
    result
}

/// A function that is to be specialized, with the values that it is called
/// with.
#[derive(Debug)]
pub struct PendingCallable {
    pub function: usize,
    pub context: Vec<CallableFlow>,
}

impl View for PendingCallable {
    type V = (int, Seq<FlowModel>);

    open spec fn view(&self) -> (int, Seq<FlowModel>) {
        (self.function as int, views(self.context@))
    }
}

/// What a call means, and the functions that are to be specialized for it.
pub struct CallOutcome {
    pub target: CallTarget,
    pub pending: Vec<PendingCallable>,
}

/// The function that one of the values of a call is. A module stands for the
/// function of the path that is called in it.
pub open spec fn value_function(
    index: IndexModel,
    place: PlaceModel,
    value: SymbolModel,
    member: Option<Seq<Seq<char>>>,
) -> Option<int> {
    match member {
        None => function_at(index.functions, value),
        Some(rest) => match symbol_module(value) {
            None => None,
            Some(module) => match resolved(
                index.functions,
                index.known,
                module + rest,
                place.caller,
                place.position,
            ) {
                Some(target) => function_at(index.functions, target),
                None => None,
            },
        },
    }
}

/// The candidates that the first `count` values of a call are, and the
/// functions that are to be specialized for them.
pub open spec fn call_candidates(
    index: IndexModel,
    place: PlaceModel,
    called: Seq<(SymbolModel, usize)>,
    values: Seq<Seq<char>>,
    flow: Seq<SymbolModel>,
    member: Option<Seq<Seq<char>>>,
    count: int,
) -> (Seq<CandidateModel>, Seq<(int, Seq<FlowModel>)>)
    decreases count,
{
    if count <= 0 {
        (Seq::empty(), Seq::empty())
    } else {
        let before = call_candidates(index, place, called, values, flow, member, count - 1);
        match value_function(index, place, flow[count - 1], member) {
            None => before,
            Some(target) => {
                let function = index.functions[target];
                let context = call_context(index, place, values, function.id, called);
                (
                    before.0.push(
                        CandidateModel {
                            target: specialized_id(function.id, context, called),
                            label: LabelModel {
                                default: candidate_label(function, values),
                                typed: None,
                            },
                        },
                    ),
                    before.1.push((target, context)),
                )
            },
        }
    }
}

/// The name of an indirect call in a function.
pub open spec fn dispatch_symbol(id: SymbolModel, name: Seq<char>) -> SymbolModel {
    SymbolModel { language: "ocaml"@, module: id.module, container: Some(id.name), name }
}

/// What an indirect call means, and the functions that are to be specialized
/// for it.
pub open spec fn indirect_call(
    index: IndexModel,
    place: PlaceModel,
    called: Seq<(SymbolModel, usize)>,
    values: Seq<Seq<char>>,
    flow: FlowModel,
    member: Option<Seq<Seq<char>>>,
    name: Seq<char>,
) -> (TargetModel, Seq<(int, Seq<FlowModel>)>) {
    let found = call_candidates(
        index,
        place,
        called,
        values,
        flow.candidates,
        member,
        flow.candidates.len() as int,
    );
    (
        TargetModel::Dynamic {
            dispatch: dispatch_symbol(place.caller, name),
            candidates: found.0,
            resolution: resolution_of(found.0.len(), flow.reasons.len() > 0),
            evidence: DispatchEvidence::ExactFlow,
            unresolved_reasons: flow.reasons,
        },
        found.1,
    )
}

/// What a call means in a function that is called with some values, and the
/// functions that are to be specialized for it.
pub open spec fn call_outcome(
    index: IndexModel,
    called: Seq<(SymbolModel, usize)>,
    id: SymbolModel,
    context: Seq<FlowModel>,
    call: SiteModel,
) -> (TargetModel, Seq<(int, Seq<FlowModel>)>) {
    let place = PlaceModel { caller: id, context, position: Some(call.span) };
    let values = call_arguments(call);
    match visible_syntax(call.syntax) {
        SyntaxModel::Expression(expression) => if call.target is Direct || call.target is Dynamic {
            (call.target, Seq::empty())
        } else {
            indirect_call(
                index,
                place,
                called,
                values,
                argument_flow(index, place, expression, FLOW_LIMIT as nat),
                None,
                expression,
            )
        },
        SyntaxModel::Path(parts) => {
            let local = if parts.len() == 1 {
                local_value(index.facts, id, parts[0], Some(call.span))
            } else {
                None
            };
            match local {
                Some(fact) => indirect_call(
                    index,
                    place,
                    called,
                    values,
                    argument_flow(index, place, fact.value, FLOW_LIMIT as nat),
                    None,
                    joined(parts, "."@),
                ),
                None => {
                    let bindings = parameters_of(index.facts, id);
                    match called_binding(parts, bindings, Some(call.span)) {
                        Some(parameter) => indirect_call(
                            index,
                            place,
                            called,
                            values,
                            flow_at(context, parameter, UnresolvedReason::AnalysisLimit),
                            if bindings[parameter].kind == OcamlParameterKind::Module {
                                Some(parts.skip(1))
                            } else {
                                None
                            },
                            joined(parts, "."@),
                        ),
                        None => direct_call(index, place, called, values, call.target),
                    }
                },
            }
        },
        _ => (call.target, Seq::empty()),
    }
}

/// What a direct call means, and the function that is to be specialized for
/// it.
pub open spec fn direct_call(
    index: IndexModel,
    place: PlaceModel,
    called: Seq<(SymbolModel, usize)>,
    values: Seq<Seq<char>>,
    target: TargetModel,
) -> (TargetModel, Seq<(int, Seq<FlowModel>)>) {
    match target_function(index.functions, target) {
        None => (target, Seq::empty()),
        Some(symbol) => match function_at(index.functions, symbol) {
            None => (target, Seq::empty()),
            Some(found) => {
                let id = index.functions[found].id;
                let context = call_context(index, place, values, id, called);
                (
                    TargetModel::Direct(specialized_id(id, context, called)),
                    seq![(found, context)],
                )
            },
        },
    }
}

/// Whether the functions that are to be specialized are in the list.
pub open spec fn all_there(pending: Seq<PendingCallable>, length: nat) -> bool {
    forall|k: int| 0 <= k < pending.len() ==> (#[trigger] pending[k]).function < length
}

fn find_value_function(
    index: &OcamlFlowIndex,
    place: &FlowPlace,
    value: &SymbolId,
    member: &Option<Vec<String>>,
) -> (result: Option<usize>)
    ensures
        match result {
            Some(found) => found < index.functions@.len() && value_function(
                index@,
                place@,
                value@,
                crate::ocaml::aliases::optional_texts(*member),
            ) == Some(found as int),
            None => value_function(
                index@,
                place@,
                value@,
                crate::ocaml::aliases::optional_texts(*member),
            ) is None,
        },
{
    match member {
        None => find_function_at(index.functions, value),
        Some(rest) => match ocaml_module_flow_path(value) {
            None => None,
            Some(module) => match resolve(
                index.functions,
                index.known,
                &joined_lists(module, rest),
                place.caller,
                place.position,
            ) {
                Some(target) => find_function_at(index.functions, &target),
                None => None,
            },
        },
    }
}

fn find_call_candidates(
    index: &OcamlFlowIndex,
    place: &FlowPlace,
    called: &Vec<CalledParameter>,
    values: &Vec<String>,
    flow: &Vec<SymbolId>,
    member: &Option<Vec<String>>,
) -> (result: (Vec<DispatchCandidate>, Vec<PendingCallable>))
    ensures
        (views(result.0@), views(result.1@)) == call_candidates(
            index@,
            place@,
            views(called@),
            texts(values@),
            views(flow@),
            crate::ocaml::aliases::optional_texts(*member),
            flow@.len() as int,
        ),
        all_there(result.1@, index.functions@.len()),
{
    let mut candidates: Vec<DispatchCandidate> = Vec::new();
    let mut pending: Vec<PendingCallable> = Vec::new();
    let mut next: usize = 0;
    proof {
        assert(views(candidates@) =~= Seq::empty());
        assert(views(pending@) =~= Seq::empty());
    }
    while next < flow.len()
        invariant
            next <= flow@.len(),
            (views(candidates@), views(pending@)) == call_candidates(
                index@,
                place@,
                views(called@),
                texts(values@),
                views(flow@),
                crate::ocaml::aliases::optional_texts(*member),
                next as int,
            ),
            all_there(pending@, index.functions@.len()),
        decreases flow@.len() - next,
    {
        proof {
            assert(views(flow@)[next as int] == flow@[next as int]@);
        }
        if let Some(found) = find_value_function(index, place, &flow[next], member) {
            let ghost before = (views(candidates@), views(pending@));
            let function = &index.functions[found];
            proof {
                assert(views(index.functions@)[found as int] == function@);
            }
            let context = ocaml_call_context(index, place, values, &function.id, called);
            let candidate = DispatchCandidate {
                target: specialized_ocaml_id(&function.id, &context, called),
                label: CallLabel {
                    default: ocaml_candidate_call_label(function, values),
                    typed: None,
                },
            };
            let item = PendingCallable { function: found, context };
            let ghost models = (candidate@, item@);
            candidates.push(candidate);
            pending.push(item);
            proof {
                assert(views(candidates@) =~= before.0.push(models.0));
                assert(views(pending@) =~= before.1.push(models.1));
            }
        }
        next += 1;
    }
    (candidates, pending)
}

fn make_indirect_call(
    index: &OcamlFlowIndex,
    place: &FlowPlace,
    called: &Vec<CalledParameter>,
    values: &Vec<String>,
    flow: &CallableFlow,
    member: &Option<Vec<String>>,
    name: String,
) -> (result: CallOutcome)
    ensures
        (result.target@, views(result.pending@)) == indirect_call(
            index@,
            place@,
            views(called@),
            texts(values@),
            flow@,
            crate::ocaml::aliases::optional_texts(*member),
            name@,
        ),
        all_there(result.pending@, index.functions@.len()),
{
    proof {
        assert(views(flow.candidates@).len() == flow.candidates@.len());
    }
    let (candidates, pending) = find_call_candidates(
        index,
        place,
        called,
        values,
        &flow.candidates,
        member,
    );
    proof {
        assert(candidate_models(candidates@) =~= views(candidates@));
    }
    let resolution = crate::rust::calls::find_resolution(
        candidates.len(),
        flow.unresolved_reasons.len() > 0,
    );
    let target = CallTarget::Dynamic {
        dispatch: SymbolId {
            language: LanguageId::new("ocaml"),
            module: crate::text::copy_texts(&place.caller.module),
            container: Some(place.caller.name.clone()),
            name,
        },
        candidates,
        resolution,
        evidence: DispatchEvidence::ExactFlow,
        unresolved_reasons: crate::model::copy_reasons(&flow.unresolved_reasons),
    };
    CallOutcome { target, pending }
}

fn no_outcome(target: &CallTarget) -> (result: CallOutcome)
    ensures
        result.target@ == target@,
        views(result.pending@) == Seq::<(int, Seq<FlowModel>)>::empty(),
        result.pending@.len() == 0,
{
    let pending: Vec<PendingCallable> = Vec::new();
    proof {
        assert(views(pending@) =~= Seq::empty());
    }
    CallOutcome { target: target.clone(), pending }
}

fn make_direct_call(
    index: &OcamlFlowIndex,
    place: &FlowPlace,
    called: &Vec<CalledParameter>,
    values: &Vec<String>,
    target: &CallTarget,
) -> (result: CallOutcome)
    ensures
        (result.target@, views(result.pending@)) == direct_call(
            index@,
            place@,
            views(called@),
            texts(values@),
            target@,
        ),
        all_there(result.pending@, index.functions@.len()),
{
    let symbol = match local_target(index.functions, target) {
        Some(symbol) => symbol,
        None => {
            return no_outcome(target);
        },
    };
    let found = match find_function_at(index.functions, &symbol) {
        Some(found) => found,
        None => {
            return no_outcome(target);
        },
    };
    proof {
        assert(views(index.functions@)[found as int] == index.functions@[found as int]@);
    }
    let id = &index.functions[found].id;
    let context = ocaml_call_context(index, place, values, id, called);
    let reached = CallTarget::Direct(specialized_ocaml_id(id, &context, called));
    let item = PendingCallable { function: found, context };
    let ghost model = item@;
    let mut pending: Vec<PendingCallable> = Vec::new();
    pending.push(item);
    proof {
        assert(views(pending@) =~= seq![model]);
    }
    CallOutcome { target: reached, pending }
}

#[verifier::rlimit(30)]
fn make_path_call(
    index: &OcamlFlowIndex,
    place: &FlowPlace,
    called: &Vec<CalledParameter>,
    values: &Vec<String>,
    parts: &Vec<String>,
    call: &CallSite,
) -> (result: CallOutcome)
    requires
        place@.position == Some(call@.span),
        place.position is Some,
        visible_syntax(call@.syntax) == SyntaxModel::Path(texts(parts@)),
        texts(values@) == call_arguments(call@),
    ensures
        (result.target@, views(result.pending@)) == call_outcome(
            index@,
            views(called@),
            place@.caller,
            place@.context,
            call@,
        ),
        all_there(result.pending@, index.functions@.len()),
{
    proof {
        assert(texts(parts@).len() == parts@.len());
    }
    if parts.len() == 1 {
        proof {
            assert(texts(parts@)[0] == parts@[0]@);
        }
        if let Some(fact) = scoped_ocaml_local_value(
            index.facts,
            place.caller,
            parts[0].as_str(),
            place.position,
        ) {
            let flow = argument_callable_flow(index, place, fact.value.as_str(), FLOW_LIMIT);
            return make_indirect_call(
                index,
                place,
                called,
                values,
                &flow,
                &None,
                join_texts(parts, "."),
            );
        }
    }
    let bindings = ocaml_parameters(index.facts, place.caller);
    match called_ocaml_parameter_index(parts, &bindings, place.position) {
        Some(parameter) => {
            proof {
                assert(views(bindings@)[parameter as int] == bindings@[parameter as int]@);
            }
            let flow = find_flow_at(place.context, parameter, UnresolvedReason::AnalysisLimit);
            let member = match bindings[parameter].kind {
                OcamlParameterKind::Module => {
                    if parts.len() > 0 {
                        proof {
                            assert(texts(parts@).subrange(1, parts@.len() as int) =~= texts(
                                parts@,
                            ).skip(1));
                        }
                        Some(some_texts(parts, 1, parts.len()))
                    } else {
                        Some(Vec::new())
                    }
                },
                OcamlParameterKind::Value => None,
            };
            proof {
                called_bindings_have_parts(
                    texts(parts@),
                    views(bindings@),
                    place@.position,
                    0,
                );
            }
            make_indirect_call(
                index,
                place,
                called,
                values,
                &flow,
                &member,
                join_texts(parts, "."),
            )
        },
        None => make_direct_call(index, place, called, values, &call.target),
    }
}

proof fn called_bindings_have_parts(
    parts: Seq<Seq<char>>,
    bindings: Seq<BindingModel>,
    position: Option<SpanModel>,
    index: int,
)
    ensures
        crate::ocaml::parameters::called_from(parts, bindings, position, index) is Some
            ==> parts.len() > 0,
    decreases bindings.len() - index,
{
    if 0 <= index < bindings.len() {
        called_bindings_have_parts(parts, bindings, position, index + 1);
    }
}

/// Finds what a call means in a function that is called with some values, and
/// the functions that are to be specialized for it.
pub fn find_call_outcome(
    index: &OcamlFlowIndex,
    called: &Vec<CalledParameter>,
    id: &SymbolId,
    context: &Vec<CallableFlow>,
    call: &CallSite,
) -> (result: CallOutcome)
    ensures
        (result.target@, views(result.pending@)) == call_outcome(
            index@,
            views(called@),
            id@,
            views(context@),
            call@,
        ),
        all_there(result.pending@, index.functions@.len()),
{
    let place = FlowPlace { caller: id, context, position: Some(&call.span) };
    let values = ocaml_call_arguments(call);
    match call.syntax.visible() {
        CallSyntax::Expression(expression) => match &call.target {
            CallTarget::Direct(_) => no_outcome(&call.target),
            CallTarget::Dynamic { .. } => no_outcome(&call.target),
            _ => {
                let flow = argument_callable_flow(
                    index,
                    &place,
                    expression.as_str(),
                    FLOW_LIMIT,
                );
                make_indirect_call(
                    index,
                    &place,
                    called,
                    &values,
                    &flow,
                    &None,
                    expression.clone(),
                )
            },
        },
        CallSyntax::Path(parts) => make_path_call(index, &place, called, &values, parts, call),
        _ => no_outcome(&call.target),
    }
}

/// The first `count` calls of a function that is called with some values, and
/// the functions that are to be specialized for them.
pub open spec fn calls_in_context(
    index: IndexModel,
    called: Seq<(SymbolModel, usize)>,
    id: SymbolModel,
    context: Seq<FlowModel>,
    calls: Seq<SiteModel>,
    count: int,
) -> (Seq<SiteModel>, Seq<(int, Seq<FlowModel>)>)
    decreases count,
{
    if count <= 0 {
        (Seq::empty(), Seq::empty())
    } else {
        let before = calls_in_context(index, called, id, context, calls, count - 1);
        let (target, pending) = call_outcome(index, called, id, context, calls[count - 1]);
        (before.0.push(SiteModel { target, ..calls[count - 1] }), before.1 + pending)
    }
}

/// Finds the calls of a function that is called with some values, and the
/// functions that are to be specialized for them.
pub fn find_calls_in_context(
    index: &OcamlFlowIndex,
    called: &Vec<CalledParameter>,
    id: &SymbolId,
    context: &Vec<CallableFlow>,
    calls: &Vec<CallSite>,
) -> (result: (Vec<CallSite>, Vec<PendingCallable>))
    ensures
        (views(result.0@), views(result.1@)) == calls_in_context(
            index@,
            views(called@),
            id@,
            views(context@),
            views(calls@),
            calls@.len() as int,
        ),
        all_there(result.1@, index.functions@.len()),
{
    let mut sites: Vec<CallSite> = Vec::new();
    let mut pending: Vec<PendingCallable> = Vec::new();
    let mut next: usize = 0;
    proof {
        assert(views(sites@) =~= Seq::empty());
        assert(views(pending@) =~= Seq::empty());
    }
    while next < calls.len()
        invariant
            next <= calls@.len(),
            (views(sites@), views(pending@)) == calls_in_context(
                index@,
                views(called@),
                id@,
                views(context@),
                views(calls@),
                next as int,
            ),
            all_there(pending@, index.functions@.len()),
        decreases calls@.len() - next,
    {
        proof {
            assert(views(calls@)[next as int] == calls@[next as int]@);
        }
        let ghost before = (views(sites@), views(pending@));
        let outcome = find_call_outcome(index, called, id, context, &calls[next]);
        let ghost added = views(outcome.pending@);
        let mut site = calls[next].clone();
        site.target = outcome.target;
        let ghost model = site@;
        let mut more = outcome.pending;
        sites.push(site);
        pending.append(&mut more);
        proof {
            assert(views(sites@) =~= before.0.push(model));
            assert(views(pending@) =~= before.1 + added);
        }
        next += 1;
    }
    (sites, pending)
}

/// The facts on a function among the first `count`, told of another.
pub open spec fn facts_retold(
    facts: Seq<FactModel>,
    subject: SymbolModel,
    id: SymbolModel,
    count: int,
) -> Seq<FactModel>
    decreases count,
{
    if count <= 0 {
        Seq::empty()
    } else {
        let before = facts_retold(facts, subject, id, count - 1);
        if facts[count - 1].subject == subject {
            before.push(FactModel { subject: id, ..facts[count - 1] })
        } else {
            before
        }
    }
}

/// The facts on a function, told of another.
pub fn retell_facts(facts: &Vec<LanguageFact>, subject: &SymbolId, id: &SymbolId) -> (result: Vec<
    LanguageFact,
>)
    ensures
        views(result@) == facts_retold(views(facts@), subject@, id@, facts@.len() as int),
{
    let mut result: Vec<LanguageFact> = Vec::new();
    let mut index: usize = 0;
    proof {
        assert(views(result@) =~= Seq::empty());
    }
    while index < facts.len()
        invariant
            index <= facts@.len(),
            views(result@) == facts_retold(views(facts@), subject@, id@, index as int),
        decreases facts@.len() - index,
    {
        proof {
            assert(views(facts@)[index as int] == facts@[index as int]@);
        }
        if facts[index].subject.same(subject) {
            let ghost before = views(result@);
            let mut fact = facts[index].clone();
            fact.subject = id.clone();
            let ghost model = fact@;
            result.push(fact);
            proof {
                assert(views(result@) =~= before.push(model));
            }
        }
        index += 1;
    }
    result
}

} // verus!
