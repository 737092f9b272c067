//! The function instances of several crates, specialized anew for the types
//! that reach them from anywhere in the program.
use crate::lists::{copy_list, views};
use crate::rust::contexts::{
    all_contexts, contexts_are_there, covering_leaves_fewer, uncovered, unvisited,
    visits_leave_fewer,
};
use crate::rust::flows::{
    all_flows, call_context, flows_are_listed, is_flow_of, joint_flow, merge_named_flow,
    named_call_context, named_key, named_specialized_key, resolve_named_flow, resolved_flow,
    resolved_flows_are_flows, root_context, root_named_context, NamedDynFlow, NamedModel,
};
use crate::rust::labels::{last_part, last_path_part};
use crate::rust::semantic::{
    FlowModel, InstanceModel, SemanticCall, SemanticCallModel, SemanticCallTarget,
    SemanticDispatchCandidate, SemanticDynFlow, SemanticFunction, SemanticModel, SemanticProgram,
    SemanticTargetModel,
};
use crate::sets::{added_text_keeps_order, texts_in_order, with_texts};
use crate::text::{
    comes_before, concat_texts, contains, contains_text, copy_texts, ends_with, ends_with_text,
    same_text, starts_with, starts_with_text, text_less, texts, trim_end_of, trim_of,
    trimmed_end_of, trimmed_of, chars_of,
};
use vstd::prelude::*;

verus! {

/// A sum that stops at the largest machine word.
pub open spec fn capped(value: int) -> int {
    if value > usize::MAX {
        usize::MAX as int
    } else {
        value
    }
}

/// How many parameters flow into the first `count` arguments.
pub open spec fn argument_parameters(flows: Seq<FlowModel>, count: int) -> int
    decreases count,
{
    if count <= 0 {
        0
    } else {
        capped(argument_parameters(flows, count - 1) + flows[count - 1].parameters.len())
    }
}

/// How many parameters flow into a call.
pub open spec fn call_parameters(call: SemanticCallModel) -> int {
    capped(
        argument_parameters(call.argument_flows, call.argument_flows.len() as int) + (
        match call.target {
            SemanticTargetModel::Dynamic { receiver_flow, .. } => receiver_flow.parameters.len(),
            _ => 0,
        }),
    )
}

/// How many parameters flow into the first `count` calls.
pub open spec fn symbolic_parameters(calls: Seq<SemanticCallModel>, count: int) -> int
    decreases count,
{
    if count <= 0 {
        0
    } else {
        capped(symbolic_parameters(calls, count - 1) + call_parameters(calls[count - 1]))
    }
}

/// How well an instance serves as a template: by how many parameters flow into
/// its calls, then by whether it is specialized for no context.
pub open spec fn template_score(function: SemanticModel) -> int {
    capped(
        capped(symbolic_parameters(function.calls, function.calls.len() as int) * 10) + if function.key
            == function.base_key {
            1int
        } else {
            0
        },
    )
}

fn argument_parameter_count(flows: &Vec<SemanticDynFlow>) -> (result: usize)
    ensures
        result == argument_parameters(views(flows@), flows@.len() as int),
{
    let mut total: usize = 0;
    let mut index: usize = 0;
    while index < flows.len()
        invariant
            index <= flows@.len(),
            total == argument_parameters(views(flows@), index as int),
        decreases flows@.len() - index,
    {
        proof {
            assert(views(flows@)[index as int] == flows@[index as int]@);
        }
        total = total.saturating_add(flows[index].parameters.len());
        index += 1;
    }
    total
}

fn call_parameter_count(call: &SemanticCall) -> (result: usize)
    ensures
        result == call_parameters(call@),
{
    let arguments: usize = argument_parameter_count(&call.argument_flows);
    match &call.target {
        SemanticCallTarget::Dynamic { receiver_flow, .. } => arguments.saturating_add(
            receiver_flow.parameters.len(),
        ),
        _ => arguments,
    }
}

/// How well an instance serves as a template.
pub fn semantic_template_score(function: &SemanticFunction) -> (result: usize)
    ensures
        result == template_score(function@),
{
    let mut symbolic: usize = 0;
    let mut index: usize = 0;
    while index < function.calls.len()
        invariant
            index <= function.calls@.len(),
            symbolic == symbolic_parameters(function@.calls, index as int),
        decreases function.calls@.len() - index,
    {
        proof {
            assert(function@.calls[index as int] == function.calls@[index as int]@);
        }
        symbolic = symbolic.saturating_add(call_parameter_count(&function.calls[index]));
        index += 1;
    }
    let exact: usize = if same_text(function.key.as_str(), function.base_key.as_str()) {
        1
    } else {
        0
    };
    let tenfold: usize = if symbolic > usize::MAX / 10 {
        usize::MAX
    } else {
        symbolic * 10
    };
    tenfold.saturating_add(exact)
}

/// How many templates at the front, from `index` on, have keys before `key`.
pub open spec fn template_position(templates: Seq<SemanticModel>, key: Seq<char>, index: nat) -> nat
    decreases templates.len() - index,
{
    if index < templates.len() && text_less(templates[index as int].base_key, key) {
        template_position(templates, key, index + 1)
    } else {
        index
    }
}

/// The templates in the order of their keys, with one more function: the
/// better of two functions with the same key stays.
pub open spec fn with_template(templates: Seq<SemanticModel>, function: SemanticModel) -> Seq<
    SemanticModel,
> {
    let place = template_position(templates, function.base_key, 0) as int;
    if place < templates.len() && templates[place].base_key == function.base_key {
        if template_score(function) > template_score(templates[place]) {
            templates.update(place, function)
        } else {
            templates
        }
    } else if place <= templates.len() {
        templates.insert(place, function)
    } else {
        templates
    }
}

/// One template for each key of the first `count` functions.
pub open spec fn templates_of(functions: Seq<SemanticModel>, count: int) -> Seq<SemanticModel>
    decreases count,
{
    if count <= 0 {
        Seq::empty()
    } else {
        with_template(templates_of(functions, count - 1), functions[count - 1])
    }
}

fn collect_templates(functions: &Vec<SemanticFunction>) -> (result: Vec<SemanticFunction>)
    ensures
        views(result@) == templates_of(views(functions@), functions@.len() as int),
{
    let mut templates: Vec<SemanticFunction> = Vec::new();
    let mut index: usize = 0;
    proof {
        assert(views(templates@) =~= Seq::empty());
    }
    while index < functions.len()
        invariant
            index <= functions@.len(),
            views(templates@) == templates_of(views(functions@), index as int),
        decreases functions@.len() - index,
    {
        let function = &functions[index];
        proof {
            assert(views(functions@)[index as int] == function@);
        }
        add_template(&mut templates, function);
        index += 1;
    }
    templates
}

fn add_template(templates: &mut Vec<SemanticFunction>, function: &SemanticFunction)
    ensures
        views(final(templates)@) == with_template(views(old(templates)@), function@),
{
    let ghost before = views(templates@);
    let mut place: usize = 0;
    while place < templates.len() && comes_before(
        templates[place].base_key.as_str(),
        function.base_key.as_str(),
    )
        invariant
            place <= templates@.len(),
            before == views(templates@),
            template_position(before, function@.base_key, place as nat) == template_position(
                before,
                function@.base_key,
                0,
            ),
        decreases templates@.len() - place,
    {
        proof {
            assert(before[place as int] == templates@[place as int]@);
        }
        place += 1;
    }
    proof {
        if place < templates@.len() {
            assert(before[place as int] == templates@[place as int]@);
        }
    }
    if place < templates.len() && same_text(
        templates[place].base_key.as_str(),
        function.base_key.as_str(),
    ) {
        if semantic_template_score(function) > semantic_template_score(&templates[place]) {
            templates.set(place, function.clone());
            proof {
                assert(views(templates@) =~= before.update(place as int, function@));
            }
        }
    } else {
        templates.insert(place, function.clone());
        proof {
            assert(views(templates@) =~= before.insert(place as int, function@));
        }
    }
}

/// The template among the first `count` whose key is the longest that `key`
/// begins with.
pub open spec fn longest_base(templates: Seq<SemanticModel>, key: Seq<char>, count: int) -> Option<
    int,
>
    decreases count,
{
    if count <= 0 {
        None
    } else {
        let before = longest_base(templates, key, count - 1);
        let base = templates[count - 1].base_key;
        if starts_with(key, base) && match before {
            Some(best) => base.len() > templates[best].base_key.len(),
            None => true,
        } {
            Some(count - 1)
        } else {
            before
        }
    }
}

/// The template that a key belongs to: the one whose key is the longest that
/// it begins with.
pub open spec fn base_of(templates: Seq<SemanticModel>, key: Seq<char>) -> Option<int> {
    longest_base(templates, key, templates.len() as int)
}

/// The template that a key belongs to.
pub fn semantic_target_base(templates: &Vec<SemanticFunction>, key: &str) -> (result: Option<usize>)
    ensures
        match result {
            Some(index) => index < templates@.len() && base_of(views(templates@), key@) == Some(
                index as int,
            ),
            None => base_of(views(templates@), key@) is None,
        },
{
    let mut best: Option<usize> = None;
    let mut index: usize = 0;
    while index < templates.len()
        invariant
            index <= templates@.len(),
            match best {
                Some(best) => best < index && longest_base(views(templates@), key@, index as int)
                    == Some(best as int),
                None => longest_base(views(templates@), key@, index as int) is None,
            },
        decreases templates@.len() - index,
    {
        let base = &templates[index].base_key;
        proof {
            assert(views(templates@)[index as int] == templates@[index as int]@);
        }
        if starts_with_text(key, base.as_str()) {
            match best {
                Some(earlier) => {
                    proof {
                        assert(views(templates@)[earlier as int] == templates@[earlier as int]@);
                    }
                    if chars_of(base.as_str()).len() > chars_of(
                        templates[earlier].base_key.as_str(),
                    ).len() {
                        best = Some(index);
                    }
                },
                None => {
                    best = Some(index);
                },
            }
        }
        index += 1;
    }
    best
}

/// Whether a method of a type can be what a dynamic call reaches.
pub open spec fn implements(
    function: SemanticModel,
    concrete: Seq<char>,
    method: Seq<char>,
) -> bool {
    ends_with(function.display, concrete + "::"@ + method) || (ends_with(
        function.display,
        "::"@ + method,
    ) && contains(function.base_key, concrete) && contains(function.base_key, " as "@))
}

/// The name of the method that a dynamic call asks for.
pub open spec fn dispatch_method(dispatch: Seq<char>) -> Seq<char> {
    trimmed_end_of(last_part(dispatch), ">"@)
}

/// The name of a type without its path and without marks around it.
pub open spec fn bare_type(concrete: Seq<char>) -> Seq<char> {
    trimmed_of(last_part(concrete), "& <>"@)
}

/// The first template from `index` on that a dynamic call reaches for a type.
pub open spec fn candidate_from(
    templates: Seq<SemanticModel>,
    concrete: Seq<char>,
    dispatch: Seq<char>,
    index: int,
) -> Option<int>
    decreases templates.len() - index,
{
    if index < 0 || index >= templates.len() {
        None
    } else if implements(templates[index], bare_type(concrete), dispatch_method(dispatch)) {
        Some(index)
    } else {
        candidate_from(templates, concrete, dispatch, index + 1)
    }
}

/// The first template that a dynamic call reaches for a type.
pub fn named_dispatch_candidate(
    concrete: &str,
    dispatch: &str,
    templates: &Vec<SemanticFunction>,
) -> (result: Option<usize>)
    ensures
        match result {
            Some(index) => index < templates@.len() && candidate_from(
                views(templates@),
                concrete@,
                dispatch@,
                0,
            ) == Some(index as int),
            None => candidate_from(views(templates@), concrete@, dispatch@, 0) is None,
        },
{
    let method = trim_end_of(last_path_part(dispatch).as_str(), ">");
    let bare = trim_of(last_path_part(concrete).as_str(), "& <>");
    let mut whole = bare.clone();
    whole.append("::");
    whole.append(method.as_str());
    let tail = concat_texts("::", method.as_str());
    let mut index: usize = 0;
    while index < templates.len()
        invariant
            index <= templates@.len(),
            method@ == dispatch_method(dispatch@),
            bare@ == bare_type(concrete@),
            whole@ == bare@ + "::"@ + method@,
            tail@ == "::"@ + method@,
            candidate_from(views(templates@), concrete@, dispatch@, index as int)
                == candidate_from(views(templates@), concrete@, dispatch@, 0),
        decreases templates@.len() - index,
    {
        let function = &templates[index];
        proof {
            assert(views(templates@)[index as int] == function@);
        }
        if ends_with_text(function.display.as_str(), whole.as_str()) || (ends_with_text(
            function.display.as_str(),
            tail.as_str(),
        ) && contains_text(function.base_key.as_str(), bare.as_str()) && contains_text(
            function.base_key.as_str(),
            " as ",
        )) {
            return Some(index);
        }
        index += 1;
    }
    None
}

/// A template that is to be specialized, and the context for it.
#[derive(Debug)]
pub struct PendingFunction {
    pub function: usize,
    pub context: Vec<NamedDynFlow>,
}

impl View for PendingFunction {
    type V = (int, Seq<NamedModel>);

    open spec fn view(&self) -> (int, Seq<NamedModel>) {
        (self.function as int, views(self.context@))
    }
}

/// How many candidates at the front, from `index` on, have keys before `key`.
pub open spec fn candidate_position(
    candidates: Seq<InstanceModel>,
    key: Seq<char>,
    index: nat,
) -> nat
    decreases candidates.len() - index,
{
    if index < candidates.len() && text_less(candidates[index as int].key, key) {
        candidate_position(candidates, key, index + 1)
    } else {
        index
    }
}

/// The candidates in the order of their keys, with one more: of two with the
/// same key the first stays.
pub open spec fn with_instance(candidates: Seq<InstanceModel>, candidate: InstanceModel) -> Seq<
    InstanceModel,
> {
    let place = candidate_position(candidates, candidate.key, 0) as int;
    if place < candidates.len() && candidates[place].key == candidate.key {
        candidates
    } else if place <= candidates.len() {
        candidates.insert(place, candidate)
    } else {
        candidates
    }
}

/// Adds a candidate in the order of the keys, unless its key is there.
pub fn add_candidate(
    candidates: &mut Vec<SemanticDispatchCandidate>,
    candidate: SemanticDispatchCandidate,
)
    ensures
        views(final(candidates)@) == with_instance(views(old(candidates)@), candidate@),
{
    let ghost before = views(candidates@);
    let mut place: usize = 0;
    while place < candidates.len() && comes_before(
        candidates[place].key.as_str(),
        candidate.key.as_str(),
    )
        invariant
            place <= candidates@.len(),
            before == views(candidates@),
            candidate_position(before, candidate@.key, place as nat) == candidate_position(
                before,
                candidate@.key,
                0,
            ),
        decreases candidates@.len() - place,
    {
        proof {
            assert(before[place as int] == candidates@[place as int]@);
        }
        place += 1;
    }
    proof {
        if place < candidates@.len() {
            assert(before[place as int] == candidates@[place as int]@);
        }
    }
    if place < candidates.len() && same_text(
        candidates[place].key.as_str(),
        candidate.key.as_str(),
    ) {
        return ;
    }
    let ghost model = candidate@;
    candidates.insert(place, candidate);
    proof {
        assert(views(candidates@) =~= before.insert(place as int, model));
    }
}

/// The candidates of a dynamic call for the first `count` types, and the
/// templates that are to be specialized for them.
pub open spec fn candidates_for(
    templates: Seq<SemanticModel>,
    dispatch: Seq<char>,
    types: Seq<Seq<char>>,
    arguments: Seq<FlowModel>,
    context: Seq<NamedModel>,
    count: int,
) -> (Seq<InstanceModel>, Seq<(int, Seq<NamedModel>)>)
    decreases count,
{
    if count <= 0 {
        (Seq::empty(), Seq::empty())
    } else {
        let (candidates, pending) = candidates_for(
            templates,
            dispatch,
            types,
            arguments,
            context,
            count - 1,
        );
        match candidate_from(templates, types[count - 1], dispatch, 0) {
            Some(index) => {
                let target = call_context(templates[index], arguments, context);
                (
                    with_instance(
                        candidates,
                        InstanceModel {
                            key: named_key(templates[index], target),
                            display: templates[index].display,
                        },
                    ),
                    pending.push((index, target)),
                )
            },
            None => (candidates, pending),
        }
    }
}

fn find_candidates(
    templates: &Vec<SemanticFunction>,
    dispatch: &str,
    types: &Vec<String>,
    arguments: &Vec<SemanticDynFlow>,
    context: &Vec<NamedDynFlow>,
) -> (result: (Vec<SemanticDispatchCandidate>, Vec<PendingFunction>))
    ensures
        (views(result.0@), views(result.1@)) == candidates_for(
            views(templates@),
            dispatch@,
            texts(types@),
            views(arguments@),
            views(context@),
            types@.len() as int,
        ),
{
    let mut candidates: Vec<SemanticDispatchCandidate> = Vec::new();
    let mut pending: Vec<PendingFunction> = Vec::new();
    let mut index: usize = 0;
    proof {
        assert(views(candidates@) =~= Seq::empty());
        assert(views(pending@) =~= Seq::empty());
    }
    while index < types.len()
        invariant
            index <= types@.len(),
            (views(candidates@), views(pending@)) == candidates_for(
                views(templates@),
                dispatch@,
                texts(types@),
                views(arguments@),
                views(context@),
                index as int,
            ),
        decreases types@.len() - index,
    {
        let ghost waiting = views(pending@);
        proof {
            assert(texts(types@)[index as int] == types@[index as int]@);
        }
        match named_dispatch_candidate(types[index].as_str(), dispatch, templates) {
            Some(found) => {
                let template = &templates[found];
                proof {
                    assert(views(templates@)[found as int] == template@);
                }
                let target = named_call_context(template, arguments, context);
                let key = named_specialized_key(template, &target);
                add_candidate(
                    &mut candidates,
                    SemanticDispatchCandidate { key, display: template.display.clone() },
                );
                let item = PendingFunction { function: found, context: target };
                let ghost model = item@;
                pending.push(item);
                proof {
                    assert(views(pending@) =~= waiting.push(model));
                }
            },
            None => {},
        }
        index += 1;
    }
    (candidates, pending)
}

/// What reaches the receiver of a dynamic call in a context.
pub open spec fn receiver_types(
    call: SemanticCallModel,
    receiver: FlowModel,
    context: Seq<NamedModel>,
) -> NamedModel {
    if call.argument_flows.len() > 0 {
        joint_flow(
            resolved_flow(receiver, context),
            resolved_flow(call.argument_flows[0], context),
        )
    } else {
        resolved_flow(receiver, context)
    }
}

/// A call in a context, and the templates that are to be specialized for it.
pub open spec fn specialized_call(
    templates: Seq<SemanticModel>,
    call: SemanticCallModel,
    context: Seq<NamedModel>,
) -> (SemanticCallModel, Seq<(int, Seq<NamedModel>)>) {
    match call.target {
        SemanticTargetModel::Direct { key, display } => match base_of(templates, key) {
            Some(index) => {
                let target = call_context(templates[index], call.argument_flows, context);
                (
                    SemanticCallModel {
                        target: SemanticTargetModel::Direct {
                            key: named_key(templates[index], target),
                            display,
                        },
                        ..call
                    },
                    seq![(index, target)],
                )
            },
            None => (call, Seq::empty()),
        },
        SemanticTargetModel::Dynamic {
            key,
            display,
            candidates,
            open,
            unresolved_reasons,
            receiver_flow,
        } => {
            let receiver = receiver_types(call, receiver_flow, context);
            let (found, pending) = candidates_for(
                templates,
                key,
                receiver.concrete_types,
                call.argument_flows,
                context,
                receiver.concrete_types.len() as int,
            );
            (
                SemanticCallModel {
                    target: SemanticTargetModel::Dynamic {
                        key,
                        display,
                        candidates: found,
                        open: receiver.unresolved_reasons.len() > 0,
                        unresolved_reasons: receiver.unresolved_reasons,
                        receiver_flow,
                    },
                    ..call
                },
                pending,
            )
        },
        _ => (call, Seq::empty()),
    }
}

fn call_with_target(call: &SemanticCall, target: SemanticCallTarget) -> (result: SemanticCall)
    ensures
        result@ == (SemanticCallModel { target: target@, ..call@ }),
{
    SemanticCall {
        target,
        definition_name: call.definition_name.clone(),
        span: call.span.clone(),
        argument_types: copy_texts(&call.argument_types),
        argument_flows: copy_list(&call.argument_flows),
    }
}

fn specialize_call(
    templates: &Vec<SemanticFunction>,
    call: &SemanticCall,
    context: &Vec<NamedDynFlow>,
) -> (result: (SemanticCall, Vec<PendingFunction>))
    ensures
        (result.0@, views(result.1@)) == specialized_call(
            views(templates@),
            call@,
            views(context@),
        ),
{
    let mut pending: Vec<PendingFunction> = Vec::new();
    proof {
        assert(views(pending@) =~= Seq::empty());
    }
    match &call.target {
        SemanticCallTarget::Direct { key, display } => match semantic_target_base(
            templates,
            key.as_str(),
        ) {
            Some(index) => {
                let template = &templates[index];
                proof {
                    assert(views(templates@)[index as int] == template@);
                }
                let target = named_call_context(template, &call.argument_flows, context);
                let key = named_specialized_key(template, &target);
                let item = PendingFunction { function: index, context: target };
                let ghost model = item@;
                pending.push(item);
                proof {
                    assert(views(pending@) =~= seq![model]);
                }
                (
                    call_with_target(
                        call,
                        SemanticCallTarget::Direct { key, display: display.clone() },
                    ),
                    pending,
                )
            },
            None => (call.clone(), pending),
        },
        SemanticCallTarget::Dynamic { key, display, receiver_flow, .. } => {
            let mut receiver = resolve_named_flow(receiver_flow, context);
            if call.argument_flows.len() > 0 {
                proof {
                    assert(call@.argument_flows[0] == call.argument_flows@[0]@);
                }
                let argument = resolve_named_flow(&call.argument_flows[0], context);
                merge_named_flow(&mut receiver, &argument);
            }
            proof {
                assert(texts(receiver.concrete_types@).len() == receiver.concrete_types@.len());
            }
            let (candidates, waiting) = find_candidates(
                templates,
                key.as_str(),
                &receiver.concrete_types,
                &call.argument_flows,
                context,
            );
            let open = receiver.unresolved_reasons.len() > 0;
            let target = SemanticCallTarget::Dynamic {
                key: key.clone(),
                display: display.clone(),
                candidates,
                open,
                unresolved_reasons: receiver.unresolved_reasons,
                receiver_flow: receiver_flow.clone(),
            };
            (call_with_target(call, target), waiting)
        },
        _ => (call.clone(), pending),
    }
}

/// The first `count` calls of a function in a context, and the templates that
/// are to be specialized for them.
pub open spec fn specialized_calls(
    templates: Seq<SemanticModel>,
    calls: Seq<SemanticCallModel>,
    context: Seq<NamedModel>,
    count: int,
) -> (Seq<SemanticCallModel>, Seq<(int, Seq<NamedModel>)>)
    decreases count,
{
    if count <= 0 {
        (Seq::empty(), Seq::empty())
    } else {
        let (before, pending) = specialized_calls(templates, calls, context, count - 1);
        let (call, more) = specialized_call(templates, calls[count - 1], context);
        (before.push(call), pending + more)
    }
}

fn specialize_calls(
    templates: &Vec<SemanticFunction>,
    calls: &Vec<SemanticCall>,
    context: &Vec<NamedDynFlow>,
) -> (result: (Vec<SemanticCall>, Vec<PendingFunction>))
    ensures
        (views(result.0@), views(result.1@)) == specialized_calls(
            views(templates@),
            views(calls@),
            views(context@),
            calls@.len() as int,
        ),
{
    let mut result: Vec<SemanticCall> = Vec::new();
    let mut pending: Vec<PendingFunction> = Vec::new();
    let mut index: usize = 0;
    proof {
        assert(views(result@) =~= Seq::empty());
        assert(views(pending@) =~= Seq::empty());
    }
    while index < calls.len()
        invariant
            index <= calls@.len(),
            (views(result@), views(pending@)) == specialized_calls(
                views(templates@),
                views(calls@),
                views(context@),
                index as int,
            ),
        decreases calls@.len() - index,
    {
        let ghost before = views(result@);
        let ghost waiting = views(pending@);
        proof {
            assert(views(calls@)[index as int] == calls@[index as int]@);
        }
        let (call, mut more) = specialize_call(templates, &calls[index], context);
        let ghost added = (call@, views(more@));
        result.push(call);
        pending.append(&mut more);
        proof {
            assert(views(result@) =~= before.push(added.0));
            assert(views(pending@) =~= waiting + added.1);
        }
        index += 1;
    }
    (result, pending)
}

/// How far specialization has come.
#[verifier::ext_equal]
pub struct WorkModel {
    /// The templates that are to be specialized, with their contexts.
    pub pending: Seq<(int, Seq<NamedModel>)>,
    /// The keys of the instances that are there.
    pub visited: Seq<Seq<char>>,
    /// The templates that there is an instance of.
    pub covered: Seq<usize>,
    pub specialized: Seq<SemanticModel>,
}

/// How far specialization has come.
pub struct Work {
    pub pending: Vec<PendingFunction>,
    pub visited: Vec<String>,
    pub covered: Vec<usize>,
    pub specialized: Vec<SemanticFunction>,
}

impl View for Work {
    type V = WorkModel;

    open spec fn view(&self) -> WorkModel {
        WorkModel {
            pending: views(self.pending@),
            visited: texts(self.visited@),
            covered: self.covered@,
            specialized: views(self.specialized@),
        }
    }
}

/// The first template from `index` on that there is no instance of.
pub open spec fn first_uncovered(covered: Seq<usize>, count: int, index: int) -> Option<int>
    decreases count - index,
{
    if index < 0 || index >= count {
        None
    } else if !covered.contains(index as usize) {
        Some(index)
    } else {
        first_uncovered(covered, count, index + 1)
    }
}

/// The template that is specialized next, with its context: the first that is
/// pending, else the first that there is no instance of.
pub open spec fn next_item(templates: Seq<SemanticModel>, work: WorkModel) -> Option<
    (int, Seq<NamedModel>),
> {
    if work.pending.len() > 0 {
        Some(work.pending[0])
    } else {
        match first_uncovered(work.covered, templates.len() as int, 0) {
            Some(index) => Some((index, root_context(templates[index]))),
            None => None,
        }
    }
}

/// A template in a context.
pub open spec fn specialized_function(
    templates: Seq<SemanticModel>,
    template: SemanticModel,
    context: Seq<NamedModel>,
) -> SemanticModel {
    SemanticModel {
        key: named_key(template, context),
        calls: specialized_calls(
            templates,
            template.calls,
            context,
            template.calls.len() as int,
        ).0,
        ..template
    }
}

/// One step of specialization.
pub open spec fn step(templates: Seq<SemanticModel>, work: WorkModel) -> WorkModel {
    match next_item(templates, work) {
        None => work,
        Some((index, context)) => {
            let rest = if work.pending.len() > 0 {
                work.pending.skip(1)
            } else {
                work.pending
            };
            let template = templates[index];
            let key = named_key(template, context);
            let covered = work.covered.push(index as usize);
            if work.visited.contains(key) {
                WorkModel { pending: rest, covered, ..work }
            } else {
                WorkModel {
                    pending: rest + specialized_calls(
                        templates,
                        template.calls,
                        context,
                        template.calls.len() as int,
                    ).1,
                    visited: work.visited.push(key),
                    covered,
                    specialized: work.specialized.push(
                        specialized_function(templates, template, context),
                    ),
                }
            }
        },
    }
}

/// How far specialization has come after `count` steps.
pub open spec fn steps(templates: Seq<SemanticModel>, start: WorkModel, count: nat) -> WorkModel
    decreases count,
{
    if count == 0 {
        start
    } else {
        step(templates, steps(templates, start, (count - 1) as nat))
    }
}

/// Whether specialization ends after `count` steps.
pub open spec fn ends_after(templates: Seq<SemanticModel>, start: WorkModel, count: nat) -> bool {
    &&& next_item(templates, steps(templates, start, count)) is None
    &&& forall|earlier: nat|
        earlier < count ==> next_item(templates, #[trigger] steps(templates, start, earlier))
            is Some
}

/// What specialization comes to.
pub open spec fn outcome(templates: Seq<SemanticModel>, start: WorkModel) -> WorkModel {
    steps(
        templates,
        start,
        choose|count: nat| #[trigger] ends_after(templates, start, count),
    )
}

proof fn steps_end_once(templates: Seq<SemanticModel>, start: WorkModel, count: nat)
    requires
        ends_after(templates, start, count),
    ensures
        outcome(templates, start) == steps(templates, start, count),
{
    let chosen = choose|count: nat| #[trigger] ends_after(templates, start, count);
    assert(ends_after(templates, start, chosen));
    if chosen < count {
        assert(next_item(templates, steps(templates, start, chosen)) is Some);
    }
    if count < chosen {
        assert(next_item(templates, steps(templates, start, count)) is Some);
    }
}

/// Whether a call of a template reaches template `index` directly.
pub open spec fn reaches(templates: Seq<SemanticModel>, call: SemanticCallModel, index: int) -> bool {
    match call.target {
        SemanticTargetModel::Direct { key, display } => base_of(templates, key) == Some(index),
        _ => false,
    }
}

/// Whether a template reaches template `index` directly.
pub open spec fn calls_template(
    templates: Seq<SemanticModel>,
    function: SemanticModel,
    index: int,
) -> bool {
    exists|call: int|
        0 <= call < function.calls.len() && reaches(
            templates,
            #[trigger] function.calls[call],
            index,
        )
}

/// Whether any template reaches template `index` directly.
pub open spec fn is_called(templates: Seq<SemanticModel>, index: int) -> bool {
    exists|function: int|
        0 <= function < templates.len() && calls_template(
            templates,
            #[trigger] templates[function],
            index,
        )
}

/// The templates among the first `count` that nobody calls directly, with
/// their contexts.
pub open spec fn root_items(templates: Seq<SemanticModel>, count: int) -> Seq<
    (int, Seq<NamedModel>),
>
    decreases count,
{
    if count <= 0 {
        Seq::empty()
    } else if is_called(templates, count - 1) {
        root_items(templates, count - 1)
    } else {
        root_items(templates, count - 1).push((count - 1, root_context(templates[count - 1])))
    }
}

/// The start of specialization.
pub open spec fn first_work(templates: Seq<SemanticModel>) -> WorkModel {
    WorkModel {
        pending: root_items(templates, templates.len() as int),
        visited: Seq::empty(),
        covered: Seq::empty(),
        specialized: Seq::empty(),
    }
}

fn calls_template_at(
    templates: &Vec<SemanticFunction>,
    function: &SemanticFunction,
    index: usize,
) -> (result: bool)
    ensures
        result == calls_template(views(templates@), function@, index as int),
{
    let mut call: usize = 0;
    while call < function.calls.len()
        invariant
            call <= function.calls@.len(),
            forall|k: int|
                0 <= k < call ==> !reaches(
                    views(templates@),
                    #[trigger] function@.calls[k],
                    index as int,
                ),
        decreases function.calls@.len() - call,
    {
        proof {
            assert(function@.calls[call as int] == function.calls@[call as int]@);
        }
        match &function.calls[call].target {
            SemanticCallTarget::Direct { key, display: _ } => {
                match semantic_target_base(templates, key.as_str()) {
                    Some(found) => {
                        if found == index {
                            return true;
                        }
                    },
                    None => {},
                }
            },
            _ => {},
        }
        call += 1;
    }
    false
}

fn is_template_called(templates: &Vec<SemanticFunction>, index: usize) -> (result: bool)
    ensures
        result == is_called(views(templates@), index as int),
{
    let mut function: usize = 0;
    while function < templates.len()
        invariant
            function <= templates@.len(),
            forall|k: int|
                0 <= k < function ==> !calls_template(
                    views(templates@),
                    #[trigger] views(templates@)[k],
                    index as int,
                ),
        decreases templates@.len() - function,
    {
        proof {
            assert(views(templates@)[function as int] == templates@[function as int]@);
        }
        if calls_template_at(templates, &templates[function], index) {
            return true;
        }
        function += 1;
    }
    false
}

fn find_roots(templates: &Vec<SemanticFunction>) -> (result: Vec<PendingFunction>)
    ensures
        views(result@) == root_items(views(templates@), templates@.len() as int),
{
    let mut result: Vec<PendingFunction> = Vec::new();
    let mut index: usize = 0;
    proof {
        assert(views(result@) =~= Seq::empty());
    }
    while index < templates.len()
        invariant
            index <= templates@.len(),
            views(result@) == root_items(views(templates@), index as int),
        decreases templates@.len() - index,
    {
        let ghost before = views(result@);
        proof {
            assert(views(templates@)[index as int] == templates@[index as int]@);
        }
        if !is_template_called(templates, index) {
            let item = PendingFunction {
                function: index,
                context: root_named_context(&templates[index]),
            };
            let ghost model = item@;
            result.push(item);
            proof {
                assert(views(result@) =~= before.push(model));
            }
        }
        index += 1;
    }
    result
}

fn is_covered(covered: &Vec<usize>, index: usize) -> (result: bool)
    ensures
        result == covered@.contains(index),
{
    let mut place: usize = 0;
    while place < covered.len()
        invariant
            place <= covered@.len(),
            forall|k: int| 0 <= k < place ==> covered@[k] != index,
        decreases covered@.len() - place,
    {
        if covered[place] == index {
            return true;
        }
        place += 1;
    }
    false
}

/// The first template that there is no instance of.
pub fn find_uncovered(covered: &Vec<usize>, count: usize) -> (result: Option<usize>)
    ensures
        match result {
            Some(index) => index < count && !covered@.contains(index) && first_uncovered(
                covered@,
                count as int,
                0,
            ) == Some(index as int),
            None => first_uncovered(covered@, count as int, 0) is None,
        },
{
    let mut index: usize = 0;
    while index < count
        invariant
            index <= count,
            first_uncovered(covered@, count as int, index as int) == first_uncovered(
                covered@,
                count as int,
                0,
            ),
        decreases count - index,
    {
        if !is_covered(covered, index) {
            return Some(index);
        }
        index += 1;
    }
    None
}

// The types that occur in flows of the first `count` arguments.
spec fn types_in_flows(types: Seq<Seq<char>>, flows: Seq<FlowModel>, count: int) -> Seq<Seq<char>>
    decreases count,
{
    if count <= 0 {
        types
    } else {
        let flow = flows[count - 1];
        with_texts(
            types_in_flows(types, flows, count - 1),
            flow.concrete_types,
            flow.concrete_types.len() as int,
        )
    }
}

spec fn types_in_call(types: Seq<Seq<char>>, call: SemanticCallModel) -> Seq<Seq<char>> {
    types_in_flows(types, call.argument_flows, call.argument_flows.len() as int)
}

spec fn types_in_calls(types: Seq<Seq<char>>, calls: Seq<SemanticCallModel>, count: int) -> Seq<
    Seq<char>,
>
    decreases count,
{
    if count <= 0 {
        types
    } else {
        types_in_call(types_in_calls(types, calls, count - 1), calls[count - 1])
    }
}

spec fn types_in(templates: Seq<SemanticModel>, count: int) -> Seq<Seq<char>>
    decreases count,
{
    if count <= 0 {
        Seq::empty()
    } else {
        types_in_calls(
            types_in(templates, count - 1),
            templates[count - 1].calls,
            templates[count - 1].calls.len() as int,
        )
    }
}

spec fn grows(before: Seq<Seq<char>>, after: Seq<Seq<char>>) -> bool {
    texts_in_order(after) && before.to_set().subset_of(after.to_set())
}

proof fn added_types_grow(types: Seq<Seq<char>>, more: Seq<Seq<char>>, count: int)
    requires
        0 <= count <= more.len(),
        texts_in_order(types),
    ensures
        grows(types, with_texts(types, more, count)),
        forall|index: int|
            0 <= index < count ==> with_texts(types, more, count).to_set().contains(
                #[trigger] more[index],
            ),
    decreases count,
{
    if count > 0 {
        added_types_grow(types, more, count - 1);
        let before = with_texts(types, more, count - 1);
        added_text_keeps_order(before, more[count - 1]);
        assert forall|index: int| 0 <= index < count implies with_texts(
            types,
            more,
            count,
        ).to_set().contains(#[trigger] more[index]) by {
            if index < count - 1 {
                assert(before.to_set().contains(more[index]));
            }
        }
    }
}

spec fn holds_flow(types: Seq<Seq<char>>, flow: FlowModel) -> bool {
    forall|index: int|
        0 <= index < flow.concrete_types.len() ==> types.to_set().contains(
            #[trigger] flow.concrete_types[index],
        )
}

proof fn flow_types_grow(types: Seq<Seq<char>>, flows: Seq<FlowModel>, count: int)
    requires
        0 <= count <= flows.len(),
        texts_in_order(types),
    ensures
        grows(types, types_in_flows(types, flows, count)),
        forall|index: int|
            0 <= index < count ==> holds_flow(
                types_in_flows(types, flows, count),
                #[trigger] flows[index],
            ),
    decreases count,
{
    if count > 0 {
        flow_types_grow(types, flows, count - 1);
        let before = types_in_flows(types, flows, count - 1);
        let flow = flows[count - 1];
        added_types_grow(before, flow.concrete_types, flow.concrete_types.len() as int);
        let after = types_in_flows(types, flows, count);
        assert forall|index: int| 0 <= index < count implies holds_flow(
            after,
            #[trigger] flows[index],
        ) by {
            if index < count - 1 {
                assert(holds_flow(before, flows[index]));
            }
        }
    }
}

spec fn holds_call(types: Seq<Seq<char>>, call: SemanticCallModel) -> bool {
    forall|index: int|
        0 <= index < call.argument_flows.len() ==> holds_flow(
            types,
            #[trigger] call.argument_flows[index],
        )
}

proof fn call_types_grow(types: Seq<Seq<char>>, calls: Seq<SemanticCallModel>, count: int)
    requires
        0 <= count <= calls.len(),
        texts_in_order(types),
    ensures
        grows(types, types_in_calls(types, calls, count)),
        forall|index: int|
            0 <= index < count ==> holds_call(
                types_in_calls(types, calls, count),
                #[trigger] calls[index],
            ),
    decreases count,
{
    if count > 0 {
        call_types_grow(types, calls, count - 1);
        let before = types_in_calls(types, calls, count - 1);
        let after = types_in_calls(types, calls, count);
        let call = calls[count - 1];
        flow_types_grow(before, call.argument_flows, call.argument_flows.len() as int);
        assert forall|index: int| 0 <= index < count implies holds_call(
            after,
            #[trigger] calls[index],
        ) by {
            if index < count - 1 {
                assert(holds_call(before, calls[index]));
                assert forall|flow: int|
                    0 <= flow < calls[index].argument_flows.len() implies holds_flow(
                    after,
                    #[trigger] calls[index].argument_flows[flow],
                ) by {
                    assert(holds_flow(before, calls[index].argument_flows[flow]));
                }
            }
        }
    }
}

spec fn holds_calls(types: Seq<Seq<char>>, function: SemanticModel) -> bool {
    forall|index: int|
        0 <= index < function.calls.len() ==> holds_call(types, #[trigger] function.calls[index])
}

proof fn larger_lists_hold_more(
    before: Seq<Seq<char>>,
    after: Seq<Seq<char>>,
    function: SemanticModel,
)
    requires
        holds_calls(before, function),
        before.to_set().subset_of(after.to_set()),
    ensures
        holds_calls(after, function),
{
    assert forall|index: int| 0 <= index < function.calls.len() implies holds_call(
        after,
        #[trigger] function.calls[index],
    ) by {
        let call = function.calls[index];
        assert(holds_call(before, call));
        assert forall|flow: int| 0 <= flow < call.argument_flows.len() implies holds_flow(
            after,
            #[trigger] call.argument_flows[flow],
        ) by {
            assert(holds_flow(before, call.argument_flows[flow]));
        }
    }
}

proof fn all_types_are_there(templates: Seq<SemanticModel>, count: int)
    requires
        0 <= count <= templates.len(),
    ensures
        texts_in_order(types_in(templates, count)),
        forall|index: int|
            0 <= index < count ==> holds_calls(
                types_in(templates, count),
                #[trigger] templates[index],
            ),
    decreases count,
{
    if count > 0 {
        all_types_are_there(templates, count - 1);
        let before = types_in(templates, count - 1);
        let function = templates[count - 1];
        let after = types_in(templates, count);
        call_types_grow(before, function.calls, function.calls.len() as int);
        assert forall|index: int| 0 <= index < count implies holds_calls(
            after,
            #[trigger] templates[index],
        ) by {
            if index < count - 1 {
                larger_lists_hold_more(before, after, templates[index]);
            }
        }
    }
}

// Whether an item is a template with a context of flows of the types.
spec fn is_item_of(
    templates: Seq<SemanticModel>,
    types: Seq<Seq<char>>,
    item: (int, Seq<NamedModel>),
) -> bool {
    &&& 0 <= item.0 < templates.len()
    &&& item.1.len() == templates[item.0].parameter_types.len()
    &&& forall|index: int| 0 <= index < item.1.len() ==> is_flow_of(#[trigger] item.1[index], types)
}

spec fn are_items_of(
    templates: Seq<SemanticModel>,
    types: Seq<Seq<char>>,
    items: Seq<(int, Seq<NamedModel>)>,
) -> bool {
    forall|index: int| 0 <= index < items.len() ==> is_item_of(templates, types, #[trigger] items[index])
}

proof fn roots_are_items(templates: Seq<SemanticModel>, types: Seq<Seq<char>>, index: int)
    requires
        0 <= index < templates.len(),
    ensures
        is_item_of(templates, types, (index, root_context(templates[index]))),
{
}

proof fn first_items_are_items(templates: Seq<SemanticModel>, types: Seq<Seq<char>>, count: int)
    requires
        0 <= count <= templates.len(),
    ensures
        are_items_of(templates, types, root_items(templates, count)),
    decreases count,
{
    if count > 0 {
        first_items_are_items(templates, types, count - 1);
        roots_are_items(templates, types, count - 1);
    }
}

proof fn call_contexts_are_items(
    templates: Seq<SemanticModel>,
    types: Seq<Seq<char>>,
    index: int,
    arguments: Seq<FlowModel>,
    context: Seq<NamedModel>,
)
    requires
        0 <= index < templates.len(),
        forall|flow: int| 0 <= flow < arguments.len() ==> holds_flow(types, #[trigger] arguments[flow]),
        forall|flow: int| 0 <= flow < context.len() ==> is_flow_of(#[trigger] context[flow], types),
    ensures
        is_item_of(templates, types, (index, call_context(templates[index], arguments, context))),
{
    let target = call_context(templates[index], arguments, context);
    assert forall|place: int| 0 <= place < target.len() implies is_flow_of(
        #[trigger] target[place],
        types,
    ) by {
        if place < arguments.len() {
            let flow = arguments[place];
            assert(holds_flow(types, flow));
            assert forall|k: int| 0 <= k < flow.concrete_types.len() implies types.contains(
                #[trigger] flow.concrete_types[k],
            ) by {
                assert(types.to_set().contains(flow.concrete_types[k]));
            }
            resolved_flows_are_flows(flow, context, flow.parameters.len() as int, types);
        }
    }
}

proof fn base_is_one(templates: Seq<SemanticModel>, key: Seq<char>, count: int)
    requires
        0 <= count <= templates.len(),
    ensures
        match longest_base(templates, key, count) {
            Some(index) => 0 <= index < count,
            None => true,
        },
    decreases count,
{
    if count > 0 {
        base_is_one(templates, key, count - 1);
    }
}

proof fn candidate_is_one(
    templates: Seq<SemanticModel>,
    concrete: Seq<char>,
    dispatch: Seq<char>,
    index: int,
)
    requires
        0 <= index,
    ensures
        match candidate_from(templates, concrete, dispatch, index) {
            Some(found) => 0 <= found < templates.len(),
            None => true,
        },
    decreases templates.len() - index,
{
    if index < templates.len() {
        candidate_is_one(templates, concrete, dispatch, index + 1);
    }
}

proof fn candidate_items_are_items(
    templates: Seq<SemanticModel>,
    types: Seq<Seq<char>>,
    dispatch: Seq<char>,
    concrete: Seq<Seq<char>>,
    arguments: Seq<FlowModel>,
    context: Seq<NamedModel>,
    count: int,
)
    requires
        0 <= count <= concrete.len(),
        forall|flow: int| 0 <= flow < arguments.len() ==> holds_flow(types, #[trigger] arguments[flow]),
        forall|flow: int| 0 <= flow < context.len() ==> is_flow_of(#[trigger] context[flow], types),
    ensures
        are_items_of(
            templates,
            types,
            candidates_for(templates, dispatch, concrete, arguments, context, count).1,
        ),
    decreases count,
{
    if count > 0 {
        candidate_items_are_items(
            templates,
            types,
            dispatch,
            concrete,
            arguments,
            context,
            count - 1,
        );
        candidate_is_one(templates, concrete[count - 1], dispatch, 0);
        match candidate_from(templates, concrete[count - 1], dispatch, 0) {
            Some(index) => {
                call_contexts_are_items(templates, types, index, arguments, context);
            },
            None => {},
        }
    }
}

proof fn call_items_are_items(
    templates: Seq<SemanticModel>,
    types: Seq<Seq<char>>,
    calls: Seq<SemanticCallModel>,
    context: Seq<NamedModel>,
    count: int,
)
    requires
        0 <= count <= calls.len(),
        forall|call: int| 0 <= call < calls.len() ==> holds_call(types, #[trigger] calls[call]),
        forall|flow: int| 0 <= flow < context.len() ==> is_flow_of(#[trigger] context[flow], types),
    ensures
        are_items_of(templates, types, specialized_calls(templates, calls, context, count).1),
    decreases count,
{
    if count > 0 {
        call_items_are_items(templates, types, calls, context, count - 1);
        let call = calls[count - 1];
        assert(holds_call(types, call));
        match call.target {
            SemanticTargetModel::Direct { key, display } => {
                base_is_one(templates, key, templates.len() as int);
                match base_of(templates, key) {
                    Some(index) => {
                        call_contexts_are_items(
                            templates,
                            types,
                            index,
                            call.argument_flows,
                            context,
                        );
                    },
                    None => {},
                }
            },
            SemanticTargetModel::Dynamic { key, receiver_flow, .. } => {
                let receiver = receiver_types(call, receiver_flow, context);
                candidate_items_are_items(
                    templates,
                    types,
                    key,
                    receiver.concrete_types,
                    call.argument_flows,
                    context,
                    receiver.concrete_types.len() as int,
                );
            },
            _ => {},
        }
    }
}

spec fn parameter_counts(templates: Seq<SemanticModel>) -> Seq<nat> {
    templates.map_values(|template: SemanticModel| template.parameter_types.len())
}

// All items that specialization can come to.
spec fn all_items(templates: Seq<SemanticModel>) -> Seq<(int, Seq<NamedModel>)> {
    all_contexts(
        all_flows(types_in(templates, templates.len() as int)),
        parameter_counts(templates),
        templates.len() as int,
    )
}

spec fn item_key(templates: Seq<SemanticModel>) -> spec_fn(int, Seq<NamedModel>) -> Seq<char> {
    |index: int, context: Seq<NamedModel>| named_key(templates[index], context)
}

spec fn left_to_visit(templates: Seq<SemanticModel>, visited: Seq<Seq<char>>) -> nat {
    unvisited(
        all_items(templates),
        item_key(templates),
        visited,
        all_items(templates).len() as int,
    )
}

proof fn visiting_items_leaves_fewer(
    templates: Seq<SemanticModel>,
    visited: Seq<Seq<char>>,
    item: (int, Seq<NamedModel>),
)
    requires
        is_item_of(templates, types_in(templates, templates.len() as int), item),
        !visited.contains(named_key(templates[item.0], item.1)),
    ensures
        left_to_visit(templates, visited.push(named_key(templates[item.0], item.1)))
            < left_to_visit(templates, visited),
{
    let types = types_in(templates, templates.len() as int);
    all_types_are_there(templates, templates.len() as int);
    assert forall|index: int| 0 <= index < item.1.len() implies all_flows(types).contains(
        #[trigger] item.1[index],
    ) by {
        flows_are_listed(types, item.1[index]);
    }
    contexts_are_there(
        all_flows(types),
        parameter_counts(templates),
        templates.len() as int,
        item.0,
        item.1,
    );
    let items = all_items(templates);
    let place = choose|place: int| 0 <= place < items.len() && items[place] == item;
    let key = named_key(templates[item.0], item.1);
    let keys = item_key(templates);
    assert(keys(items[place].0, items[place].1) == key);
    visits_leave_fewer(items, keys, visited, key, items.len() as int);
}

fn take_item(templates: &Vec<SemanticFunction>, work: &mut Work) -> (result: Option<
    PendingFunction,
>)
    ensures
        match result {
            Some(item) => next_item(views(templates@), old(work)@) == Some(item@),
            None => next_item(views(templates@), old(work)@) is None,
        },
        final(work)@ == (WorkModel {
            pending: if old(work)@.pending.len() > 0 {
                old(work)@.pending.skip(1)
            } else {
                old(work)@.pending
            },
            ..old(work)@
        }),
        result is Some && old(work)@.pending.len() == 0 ==> !old(work)@.covered.contains(
            result->0.function,
        ),
{
    let ghost before = work@;
    if work.pending.len() > 0 {
        let item = work.pending.remove(0);
        proof {
            assert(before.pending[0] == item@);
            assert(views(work.pending@) =~= before.pending.skip(1));
        }
        Some(item)
    } else {
        match find_uncovered(&work.covered, templates.len()) {
            Some(index) => {
                proof {
                    assert(views(templates@)[index as int] == templates@[index as int]@);
                }
                Some(
                    PendingFunction {
                        function: index,
                        context: root_named_context(&templates[index]),
                    },
                )
            },
            None => None,
        }
    }
}

/// The first template without an instance is one of the templates.
pub proof fn uncovered_is_one(covered: Seq<usize>, count: int, index: int)
    requires
        0 <= index,
    ensures
        match first_uncovered(covered, count, index) {
            Some(found) => index <= found < count,
            None => true,
        },
    decreases count - index,
{
    if index < count {
        uncovered_is_one(covered, count, index + 1);
    }
}

fn process_item(templates: &Vec<SemanticFunction>, work: &mut Work, item: PendingFunction)
    requires
        item.function < templates@.len(),
    ensures
        final(work)@ == ({
            let template = views(templates@)[item@.0];
            let key = named_key(template, item@.1);
            let covered = old(work)@.covered.push(item.function);
            if old(work)@.visited.contains(key) {
                WorkModel { covered, ..old(work)@ }
            } else {
                WorkModel {
                    pending: old(work)@.pending + specialized_calls(
                        views(templates@),
                        template.calls,
                        item@.1,
                        template.calls.len() as int,
                    ).1,
                    visited: old(work)@.visited.push(key),
                    covered,
                    specialized: old(work)@.specialized.push(
                        specialized_function(views(templates@), template, item@.1),
                    ),
                }
            }
        }),
{
    let ghost before = work@;
    let template = &templates[item.function];
    proof {
        assert(views(templates@)[item.function as int] == template@);
    }
    let key = named_specialized_key(template, &item.context);
    work.covered.push(item.function);
    if crate::rust::calls::has_text(&work.visited, key.as_str()) {
        return ;
    }
    let (calls, mut more) = specialize_calls(templates, &template.calls, &item.context);
    let ghost added = views(more@);
    let function = SemanticFunction {
        base_key: template.base_key.clone(),
        key: key.clone(),
        display: template.display.clone(),
        definition_name: template.definition_name.clone(),
        body_span: template.body_span.clone(),
        calls,
        constructor_spans: copy_list(&template.constructor_spans),
        constructor_names: copy_texts(&template.constructor_names),
        parameter_types: copy_texts(&template.parameter_types),
    };
    let ghost model = function@;
    let ghost name = key@;
    work.visited.push(key);
    work.pending.append(&mut more);
    work.specialized.push(function);
    proof {
        assert(model =~= specialized_function(views(templates@), template@, item@.1));
        assert(views(work.pending@) =~= before.pending + added);
        assert(texts(work.visited@) =~= before.visited.push(name));
        assert(views(work.specialized@) =~= before.specialized.push(model));
    }
}

fn run(templates: &Vec<SemanticFunction>) -> (result: Vec<SemanticFunction>)
    ensures
        views(result@) == outcome(views(templates@), first_work(views(templates@))).specialized,
{
    let mut work = Work {
        pending: find_roots(templates),
        visited: Vec::new(),
        covered: Vec::new(),
        specialized: Vec::new(),
    };
    let total: usize = templates.len();
    let ghost all = views(templates@);
    let ghost start = first_work(all);
    let ghost types = types_in(all, all.len() as int);
    let ghost mut count: nat = 0;
    proof {
        assert(work@ =~= start);
        first_items_are_items(all, types, all.len() as int);
        all_types_are_there(all, all.len() as int);
    }
    loop
        invariant
            all == views(templates@),
            all.len() == templates@.len(),
            all.len() == total,
            start == first_work(all),
            types == types_in(all, all.len() as int),
            forall|index: int|
                0 <= index < all.len() ==> holds_calls(types, #[trigger] all[index]),
            are_items_of(all, types, work@.pending),
            work@ == steps(all, start, count),
            forall|earlier: nat|
                earlier < count ==> next_item(all, #[trigger] steps(all, start, earlier)) is Some,
        decreases
            left_to_visit(all, work@.visited),
            uncovered(work@.covered, all.len() as int),
            work@.pending.len(),
    {
        let ghost before = work@;
        proof {
            uncovered_is_one(before.covered, all.len() as int, 0);
        }
        match take_item(templates, &mut work) {
            None => {
                proof {
                    assert(ends_after(all, start, count));
                    steps_end_once(all, start, count);
                }
                return work.specialized;
            },
            Some(item) => {
                let ghost model = item@;
                proof {
                    if before.pending.len() > 0 {
                        assert(is_item_of(all, types, before.pending[0]));
                    } else {
                        roots_are_items(all, types, model.0);
                    }
                    covering_leaves_fewer(before.covered, item.function, all.len() as int);
                    let key = named_key(all[model.0], model.1);
                    if !before.visited.contains(key) {
                        visiting_items_leaves_fewer(all, before.visited, model);
                    }
                    call_items_are_items(
                        all,
                        types,
                        all[model.0].calls,
                        model.1,
                        all[model.0].calls.len() as int,
                    );
                    assert forall|index: int|
                        0 <= index < work@.pending.len() implies is_item_of(
                        all,
                        types,
                        #[trigger] work@.pending[index],
                    ) by {
                        assert(is_item_of(all, types, before.pending[index + 1]));
                    }
                }
                process_item(templates, &mut work, item);
                proof {
                    assert(work@ == step(all, before));
                    count = count + 1;
                }
            },
        }
    }
}

/// How many functions at the front, from `index` on, have keys not after `key`.
pub open spec fn sorted_position(functions: Seq<SemanticModel>, key: Seq<char>, index: nat) -> nat
    decreases functions.len() - index,
{
    if index < functions.len() && !text_less(key, functions[index as int].key) {
        sorted_position(functions, key, index + 1)
    } else {
        index
    }
}

/// The first `count` functions in the order of their keys.
pub open spec fn sorted_by_key(functions: Seq<SemanticModel>, count: int) -> Seq<SemanticModel>
    decreases count,
{
    if count <= 0 {
        Seq::empty()
    } else {
        let before = sorted_by_key(functions, count - 1);
        before.insert(
            sorted_position(before, functions[count - 1].key, 0) as int,
            functions[count - 1],
        )
    }
}

/// Puts functions in the order of their keys.
pub fn sort_by_key(functions: &Vec<SemanticFunction>) -> (result: Vec<SemanticFunction>)
    ensures
        views(result@) == sorted_by_key(views(functions@), functions@.len() as int),
{
    let mut result: Vec<SemanticFunction> = Vec::new();
    let mut index: usize = 0;
    proof {
        assert(views(result@) =~= Seq::empty());
    }
    while index < functions.len()
        invariant
            index <= functions@.len(),
            views(result@) == sorted_by_key(views(functions@), index as int),
        decreases functions@.len() - index,
    {
        let function = &functions[index];
        let ghost before = views(result@);
        proof {
            assert(views(functions@)[index as int] == function@);
        }
        let mut place: usize = 0;
        while place < result.len() && !comes_before(
            function.key.as_str(),
            result[place].key.as_str(),
        )
            invariant
                place <= result@.len(),
                before == views(result@),
                sorted_position(before, function@.key, place as nat) == sorted_position(
                    before,
                    function@.key,
                    0,
                ),
            decreases result@.len() - place,
        {
            proof {
                assert(before[place as int] == result@[place as int]@);
            }
            place += 1;
        }
        proof {
            if place < result@.len() {
                assert(before[place as int] == result@[place as int]@);
            }
        }
        result.insert(place, function.clone());
        proof {
            assert(views(result@) =~= before.insert(place as int, function@));
        }
        index += 1;
    }
    result
}

/// The functions of a program, specialized for the types that reach them.
pub open spec fn respecialized(functions: Seq<SemanticModel>) -> Seq<SemanticModel> {
    if functions.len() == 0 {
        functions
    } else {
        let templates = templates_of(functions, functions.len() as int);
        let specialized = outcome(templates, first_work(templates)).specialized;
        sorted_by_key(specialized, specialized.len() as int)
    }
}

/// Specializes the functions of a program for the types that reach them from
/// anywhere in it.
pub fn respecialize_merged_semantic_program(program: &mut SemanticProgram)
    ensures
        final(program)@ == (crate::rust::semantic::ProgramModel {
            functions: respecialized(old(program)@.functions),
            ..old(program)@
        }),
{
    proof {
        assert(program@.functions.len() == program.functions@.len());
    }
    if program.functions.len() == 0 {
        return ;
    }
    let templates = collect_templates(&program.functions);
    let specialized = run(&templates);
    proof {
        assert(views(specialized@).len() == specialized@.len());
    }
    program.functions = sort_by_key(&specialized);
}

} // verus!
