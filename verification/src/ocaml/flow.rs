//! Following callable values of OCaml programs to the functions that they are.
use crate::lists::views;
use crate::model::{SymbolId, SymbolModel, UnresolvedReason};
use crate::ocaml::aliases::{expand_ocaml_module_alias, expanded};
use crate::ocaml::bindings::{
    normalize_ocaml_callable_argument, ocaml_module_package_path, packed_module, plain_argument,
    project_ocaml_argument, projected, BindingModel, OcamlParameterBinding, OcamlParameterKind,
    OcamlProjection, StepModel,
};
use crate::ocaml::callable::{
    empty_flow, find_flow_at, flow_at, merge_callable_flow, merged_flow, module_symbol,
    ocaml_module_flow_candidate, optional_flow, single_flow, unknown_flow, with_doubt,
    CallableFlow, FlowModel, FlowPlace, IndexModel, OcamlFlowIndex, PlaceModel,
};
use crate::ocaml::expressions::{
    branch_field, branches_of, find_branches, find_wrapped, is_function_expression,
    is_function_node, is_value_node, is_wrapper, last_named, last_named_child, names_value,
    ocaml_value_path, plain_node_text, plain_text, value_path, wrapped_node, wraps_value,
};
use crate::ocaml::labels::{arguments, split_ocaml_arguments};
use crate::ocaml::parameters::{
    find_of_kind, kind_from, ocaml_parameters, ocaml_return_outcomes, parameters_of,
    return_outcomes,
};
use crate::ocaml::patterns::{
    after_last_dot, is_identifier, is_value_identifier, text_after_last_dot,
};
use crate::ocaml::scopes::{
    local_callable_at, local_function, local_value, place_before, position_before_ocaml_scope,
    scoped_ocaml_local_value,
};
use crate::ocaml::symbols::{
    anonymous_callable_symbol_at, anonymous_function, argument_callable_symbol, argument_function,
    find_function_at, function_at, resolve, resolved,
};
use crate::ocaml::syntax::{
    child_by_field, child_by_field_name, child_of_kind, children_of_kind, direct_named_child,
    direct_named_children, end_of, fields_are_behind, first_named, first_named_child, is_kind,
    named_are_behind, node_list, optional_node, parse_rows, syntax_rows, RowModel, SyntaxRow,
};
use crate::ocaml::words::{
    normal, normalize_source, strip_outer_ocaml_parentheses, without_parentheses,
};
use crate::text::{same_text, strip_prefix, strip_prefix_text, texts, trim_text, trimmed};
use vstd::prelude::*;

verus! {

/// How often a local name may stand for another before the search ends.
pub const NAME_LIMIT: usize = 64;

/// The arguments of an application, as it is written.
pub open spec fn application_arguments(rows: Seq<RowModel>, node: int, function: int) -> Seq<
    Seq<char>,
> {
    match strip_prefix(plain_text(rows, node), plain_text(rows, function)) {
        Some(rest) => arguments(trimmed(rest)),
        None => Seq::empty(),
    }
}

/// The arguments of an application, as it is written.
pub fn ocaml_application_arguments(rows: &Vec<SyntaxRow>, node: usize, function: usize) -> (result: Vec<
    String,
>)
    requires
        node < rows@.len(),
        function < rows@.len(),
    ensures
        texts(result@) == application_arguments(views(rows@), node as int, function as int),
{
    match strip_prefix_text(
        plain_node_text(rows, node).as_str(),
        plain_node_text(rows, function).as_str(),
    ) {
        Some(rest) => split_ocaml_arguments(trim_text(rest.as_str()).as_str()),
        None => {
            let result: Vec<String> = Vec::new();
            proof {
                assert(texts(result@) =~= Seq::empty());
            }
            result
        },
    }
}

/// The part of an argument that a binding stands for.
pub open spec fn passed(values: Seq<Seq<char>>, binding: BindingModel) -> Option<Seq<char>> {
    if binding.argument_index < values.len() {
        projected(values[binding.argument_index as int], binding.projection)
    } else {
        None
    }
}

/// The part of an argument that a binding stands for.
pub fn passed_argument(values: &Vec<String>, binding: &OcamlParameterBinding) -> (result: Option<
    String,
>)
    ensures
        match result {
            Some(value) => passed(texts(values@), binding@) == Some(value@),
            None => passed(texts(values@), binding@) is None,
        },
{
    proof {
        assert(texts(values@).len() == values@.len());
    }
    if binding.argument_index < values.len() {
        proof {
            assert(texts(values@)[binding.argument_index as int]
                == values@[binding.argument_index as int]@);
        }
        project_ocaml_argument(values[binding.argument_index].as_str(), &binding.projection)
    } else {
        None
    }
}

/// The record that an expression writes, without the parentheses around it.
pub open spec fn record_node(rows: Seq<RowModel>, node: int) -> Option<int>
    decreases rows.len() - node,
    when 0 <= node < rows.len()
{
    if rows[node].kind == "expression_item"@ || rows[node].kind == "parenthesized_expression"@ {
        proof {
            fields_are_behind(rows, node + 1, end_of(rows, node), "expression"@);
            named_are_behind(rows, node + 1, end_of(rows, node));
        }
        match child_by_field(rows, node, "expression"@) {
            Some(inner) => record_node(rows, inner),
            None => match first_named(rows, node) {
                Some(inner) => record_node(rows, inner),
                None => None,
            },
        }
    } else if rows[node].kind == "record_expression"@ {
        Some(node)
    } else {
        None
    }
}

fn find_record(rows: &Vec<SyntaxRow>, node: usize) -> (result: Option<usize>)
    requires
        node < rows@.len(),
    ensures
        optional_node(result) == record_node(views(rows@), node as int),
        match result {
            Some(found) => found < rows@.len(),
            None => true,
        },
    decreases rows@.len() - node,
{
    proof {
        assert(views(rows@).len() == rows@.len());
    }
    if is_kind(rows, node, "expression_item") || is_kind(rows, node, "parenthesized_expression") {
        match child_by_field_name(rows, node, "expression") {
            Some(inner) => find_record(rows, inner),
            None => match first_named_child(rows, node) {
                Some(inner) => find_record(rows, inner),
                None => None,
            },
        }
    } else if is_kind(rows, node, "record_expression") {
        Some(node)
    } else {
        None
    }
}

/// The first field of a record, from `index` on, that has a name.
pub open spec fn field_place(rows: Seq<RowModel>, fields: Seq<int>, name: Seq<char>, index: int) -> Option<
    (int, Seq<char>),
>
    decreases fields.len() - index,
{
    if index < 0 || index >= fields.len() {
        None
    } else {
        match child_of_kind(rows, fields[index], "field_path"@) {
            Some(path) => if after_last_dot(plain_text(rows, path)) == name {
                Some((fields[index], plain_text(rows, path)))
            } else {
                field_place(rows, fields, name, index + 1)
            },
            None => field_place(rows, fields, name, index + 1),
        }
    }
}

fn find_field(rows: &Vec<SyntaxRow>, record: usize, name: &str) -> (result: Option<(usize, String)>)
    requires
        record < rows@.len(),
    ensures
        match result {
            Some((field, path)) => field < rows@.len() && field_place(
                views(rows@),
                children_of_kind(views(rows@), record as int, "field_expression"@),
                name@,
                0,
            ) == Some((field as int, path@)),
            None => field_place(
                views(rows@),
                children_of_kind(views(rows@), record as int, "field_expression"@),
                name@,
                0,
            ) is None,
        },
{
    let fields = direct_named_children(rows, record, "field_expression");
    let ghost nodes = node_list(fields@);
    let mut index: usize = 0;
    proof {
        assert(nodes.len() == fields@.len());
    }
    while index < fields.len()
        invariant
            index <= fields@.len(),
            nodes == node_list(fields@),
            nodes == children_of_kind(views(rows@), record as int, "field_expression"@),
            nodes.len() == fields@.len(),
            forall|k: int| 0 <= k < fields@.len() ==> #[trigger] fields@[k] < rows@.len(),
            field_place(views(rows@), nodes, name@, index as int) == field_place(
                views(rows@),
                nodes,
                name@,
                0,
            ),
        decreases fields@.len() - index,
    {
        let field: usize = fields[index];
        proof {
            assert(nodes[index as int] == field);
        }
        if let Some(path) = direct_named_child(rows, field, "field_path") {
            let text = plain_node_text(rows, path);
            if same_text(text_after_last_dot(text.as_str()).as_str(), name) {
                return Some((field, text));
            }
        }
        index += 1;
    }
    None
}

/// The position in a pair that a function of the standard library gives.
pub open spec fn pair_part(parts: Seq<Seq<char>>) -> Option<usize> {
    if parts.len() == 1 && parts[0] == "fst"@ {
        Some(0usize)
    } else if parts.len() == 1 && parts[0] == "snd"@ {
        Some(1usize)
    } else {
        None
    }
}

fn find_pair_part(parts: &Vec<String>) -> (result: Option<usize>)
    ensures
        result == pair_part(texts(parts@)),
{
    proof {
        assert(texts(parts@).len() == parts@.len());
    }
    if parts.len() != 1 {
        return None;
    }
    proof {
        assert(texts(parts@)[0] == parts@[0]@);
    }
    if same_text(parts[0].as_str(), "fst") {
        Some(0)
    } else if same_text(parts[0].as_str(), "snd") {
        Some(1)
    } else {
        None
    }
}

/// What a function that is found may be.
pub open spec fn found_flow(symbol: Option<SymbolModel>) -> Option<FlowModel> {
    match symbol {
        Some(symbol) => Some(single_flow(symbol)),
        None => None,
    }
}

fn make_found_flow(symbol: Option<SymbolId>) -> (result: Option<CallableFlow>)
    ensures
        optional_flow(result) == found_flow(crate::ocaml::symbols::optional_symbol(symbol)),
{
    match symbol {
        Some(symbol) => Some(CallableFlow::single(symbol)),
        None => None,
    }
}

/// The parameter that is the module of a path.
pub open spec fn own_module_parameter(index: IndexModel, caller: SymbolModel, module: Seq<Seq<char>>) -> Option<
    int,
> {
    if module.len() == 1 {
        kind_from(
            parameters_of(index.facts, caller),
            OcamlParameterKind::Module,
            module[0],
            false,
            None,
            0,
        )
    } else {
        None
    }
}

/// What a module that is passed as a value may be.
pub open spec fn module_flow(index: IndexModel, place: PlaceModel, module: Seq<Seq<char>>) -> FlowModel {
    match own_module_parameter(index, place.caller, module) {
        Some(parameter) => flow_at(place.context, parameter, UnresolvedReason::OpaqueInput),
        None => match expanded(index.aliases, module) {
            Some(path) => single_flow(module_symbol(path)),
            None => single_flow(module_symbol(module)),
        },
    }
}

fn make_module_flow(index: &OcamlFlowIndex, place: &FlowPlace, module: &Vec<String>) -> (result:
    CallableFlow)
    ensures
        result@ == module_flow(index@, place@, texts(module@)),
{
    proof {
        assert(texts(module@).len() == module@.len());
    }
    if module.len() == 1 {
        proof {
            assert(texts(module@)[0] == module@[0]@);
        }
        let parameters = ocaml_parameters(index.facts, place.caller);
        if let Some(parameter) = find_of_kind(
            &parameters,
            OcamlParameterKind::Module,
            module[0].as_str(),
            false,
            None,
        ) {
            return find_flow_at(place.context, parameter, UnresolvedReason::OpaqueInput);
        }
    }
    match expand_ocaml_module_alias(module, index.aliases) {
        Some(path) => CallableFlow::single(ocaml_module_flow_candidate(&path)),
        None => CallableFlow::single(ocaml_module_flow_candidate(module)),
    }
}

/// What an argument may be, in no more than `steps` nested steps from one
/// expression to another.
pub open spec fn argument_flow(
    index: IndexModel,
    place: PlaceModel,
    argument: Seq<char>,
    steps: nat,
) -> FlowModel
    decreases steps, 3int, 0int, 0int, 0int,
{
    match packed_module(argument) {
        Some(module) => module_flow(index, place, module),
        None => {
            let plain = plain_argument(argument);
            match expression_flow(index, place, plain, steps) {
                Some(flow) => flow,
                None => match argument_function(
                    index.functions,
                    index.known,
                    plain,
                    place.caller,
                    place.position,
                ) {
                    Some(symbol) => single_flow(symbol),
                    None => unknown_flow(UnresolvedReason::UnsupportedConstruct),
                },
            }
        },
    }
}

/// What an expression may be.
pub open spec fn expression_flow(
    index: IndexModel,
    place: PlaceModel,
    expression: Seq<char>,
    steps: nat,
) -> Option<FlowModel>
    decreases steps, 2int, 0int, 0int, 0int,
{
    match syntax_rows(expression, false) {
        None => None,
        Some(rows) => if rows.len() == 0 || rows[0].error {
            None
        } else {
            match first_named(rows, 0) {
                Some(node) => node_flow(index, place, rows, node, steps),
                None => None,
            }
        },
    }
}

/// What the expression at a node may be.
pub open spec fn node_flow(
    index: IndexModel,
    place: PlaceModel,
    rows: Seq<RowModel>,
    node: int,
    steps: nat,
) -> Option<FlowModel>
    decreases steps, 1int, rows.len() - node, 1int, 0int,
{
    if !(0 <= node < rows.len()) {
        None
    } else if is_function_node(rows, node) {
        found_flow(
            anonymous_function(index.functions, rows[node].text, place.caller, place.position),
        )
    } else if rows[node].kind == "application_expression"@ {
        application_flow(index, place, rows, node, steps)
    } else if rows[node].kind == "field_get_expression"@ {
        match (child_by_field(rows, node, "record"@), child_by_field(rows, node, "field"@)) {
            (Some(record), Some(field)) => if steps == 0 {
                Some(unknown_flow(UnresolvedReason::AnalysisLimit))
            } else {
                record_flow(
                    index,
                    place,
                    rows[record].text,
                    rows[field].text,
                    0,
                    (steps - 1) as nat,
                )
            },
            _ => None,
        }
    } else if is_value_node(rows, node) {
        if steps == 0 {
            Some(unknown_flow(UnresolvedReason::AnalysisLimit))
        } else {
            atom_flow(index, place, rows[node].text, (steps - 1) as nat)
        }
    } else if is_wrapper(rows, node) {
        match wrapped_node(rows, node) {
            Some(inner) => if node < inner < rows.len() {
                node_flow(index, place, rows, inner, steps)
            } else {
                None
            },
            None => None,
        }
    } else if rows[node].kind == "sequence_expression"@ {
        match last_named(rows, node) {
            Some(last) => if node < last < rows.len() {
                node_flow(index, place, rows, last, steps)
            } else {
                None
            },
            None => None,
        }
    } else if rows[node].kind == "if_expression"@ {
        let branches = branches_of(rows, node, true);
        let (flow, count) = branch_flow(
            index,
            place,
            rows,
            node,
            branches,
            true,
            branches.len() as int,
            steps,
        );
        if count < 2 {
            Some(with_doubt(flow, UnresolvedReason::OpaqueInput))
        } else {
            Some(flow)
        }
    } else if rows[node].kind == "match_expression"@ {
        let branches = branches_of(rows, node, false);
        let (flow, count) = branch_flow(
            index,
            place,
            rows,
            node,
            branches,
            false,
            branches.len() as int,
            steps,
        );
        if count > 0 {
            Some(flow)
        } else {
            None
        }
    } else {
        None
    }
}

/// What the first `count` branches of a condition or of a match may be, and
/// how many of them have a value.
pub open spec fn branch_flow(
    index: IndexModel,
    place: PlaceModel,
    rows: Seq<RowModel>,
    node: int,
    branches: Seq<int>,
    condition: bool,
    count: int,
    steps: nat,
) -> (FlowModel, int)
    decreases steps, 1int, rows.len() - node, 0int, count,
{
    if count <= 0 {
        (empty_flow(), 0)
    } else {
        let (flow, valued) = branch_flow(
            index,
            place,
            rows,
            node,
            branches,
            condition,
            count - 1,
            steps,
        );
        match child_by_field(rows, branches[count - 1], branch_field(condition)) {
            None => (with_doubt(flow, UnresolvedReason::UnsupportedConstruct), valued),
            Some(value) => if node < value < rows.len() {
                (
                    merged_flow(
                        flow,
                        match node_flow(index, place, rows, value, steps) {
                            Some(more) => more,
                            None => unknown_flow(UnresolvedReason::OpaqueInput),
                        },
                    ),
                    valued + 1,
                )
            } else {
                (flow, valued)
            },
        }
    }
}

/// What an application may give.
pub open spec fn application_flow(
    index: IndexModel,
    place: PlaceModel,
    rows: Seq<RowModel>,
    node: int,
    steps: nat,
) -> Option<FlowModel>
    decreases steps, 1int, rows.len() - node, 0int, 0int,
{
    match child_by_field(rows, node, "function"@) {
        None => None,
        Some(function) => match value_path(rows, function) {
            None => None,
            Some(parts) => {
                let values = application_arguments(rows, node, function);
                match resolved(
                    index.functions,
                    index.known,
                    parts,
                    place.caller,
                    place.position,
                ) {
                    None => match pair_part(parts) {
                        Some(part) => if values.len() == 0 {
                            None
                        } else if steps == 0 {
                            Some(unknown_flow(UnresolvedReason::AnalysisLimit))
                        } else {
                            projected_flow(
                                index,
                                place,
                                values[0],
                                seq![StepModel::Tuple(part)],
                                0,
                                (steps - 1) as nat,
                            )
                        },
                        None => None,
                    },
                    Some(target) => {
                        let outcomes = return_outcomes(index.facts, target);
                        if function_at(index.functions, target) is None || outcomes.len() == 0 {
                            None
                        } else if steps == 0 {
                            Some(unknown_flow(UnresolvedReason::AnalysisLimit))
                        } else {
                            let bindings = parameters_of(index.facts, target);
                            let context = argument_flows(
                                index,
                                place,
                                bindings,
                                values,
                                bindings.len() as int,
                                (steps - 1) as nat,
                            );
                            Some(
                                outcome_flow(
                                    index,
                                    PlaceModel { caller: target, context, ..place },
                                    outcomes,
                                    outcomes.len() as int,
                                    (steps - 1) as nat,
                                ),
                            )
                        }
                    },
                }
            },
        },
    }
}

/// What the first `count` bindings of a function that is applied may be.
pub open spec fn argument_flows(
    index: IndexModel,
    place: PlaceModel,
    bindings: Seq<BindingModel>,
    values: Seq<Seq<char>>,
    count: int,
    steps: nat,
) -> Seq<FlowModel>
    decreases steps, 4int, count, 0int, 0int,
{
    if count <= 0 {
        Seq::empty()
    } else {
        argument_flows(index, place, bindings, values, count - 1, steps).push(
            match passed(values, bindings[count - 1]) {
                Some(value) => argument_flow(index, place, value, steps),
                None => unknown_flow(UnresolvedReason::OpaqueInput),
            },
        )
    }
}

/// What one of the first `count` expressions may be.
pub open spec fn outcome_flow(
    index: IndexModel,
    place: PlaceModel,
    outcomes: Seq<Seq<char>>,
    count: int,
    steps: nat,
) -> FlowModel
    decreases steps, 4int, count, 0int, 0int,
{
    if count <= 0 {
        empty_flow()
    } else {
        merged_flow(
            outcome_flow(index, place, outcomes, count - 1, steps),
            argument_flow(index, place, outcomes[count - 1], steps),
        )
    }
}

/// What a part of an expression may be.
pub open spec fn projected_flow(
    index: IndexModel,
    place: PlaceModel,
    expression: Seq<char>,
    projection: Seq<StepModel>,
    depth: int,
    steps: nat,
) -> Option<FlowModel>
    decreases steps, 4int, NAME_LIMIT - depth, 0int, 0int,
{
    if depth >= NAME_LIMIT {
        Some(unknown_flow(UnresolvedReason::AnalysisLimit))
    } else {
        let plain = plain_argument(expression);
        let local = if is_identifier(plain) {
            local_value(index.facts, place.caller, plain, place.position)
        } else {
            None
        };
        match local {
            Some(fact) => projected_flow(
                index,
                PlaceModel { position: Some(place_before(fact.span)), ..place },
                fact.value,
                projection,
                depth + 1,
                steps,
            ),
            None => match projected(plain, projection) {
                Some(part) => Some(argument_flow(index, place, part, steps)),
                None => None,
            },
        }
    }
}

/// What a name may be.
pub open spec fn atom_flow(index: IndexModel, place: PlaceModel, name: Seq<char>, steps: nat) -> Option<
    FlowModel,
>
    decreases steps, 3int, 0int, 0int, 0int,
{
    let plain = plain_argument(name);
    match local_value(index.facts, place.caller, plain, place.position) {
        Some(fact) => Some(
            match expression_flow(
                index,
                PlaceModel { position: Some(place_before(fact.span)), ..place },
                fact.value,
                steps,
            ) {
                Some(flow) => flow,
                None => unknown_flow(UnresolvedReason::OpaqueInput),
            },
        ),
        None => match kind_from(
            parameters_of(index.facts, place.caller),
            OcamlParameterKind::Value,
            plain,
            true,
            place.position,
            0,
        ) {
            Some(parameter) => Some(
                flow_at(place.context, parameter, UnresolvedReason::OpaqueInput),
            ),
            None => match local_function(
                index.functions,
                plain,
                place.caller,
                index.facts,
                place.position,
            ) {
                Some(symbol) => Some(single_flow(symbol)),
                None => found_flow(
                    argument_function(
                        index.functions,
                        index.known,
                        plain,
                        place.caller,
                        place.position,
                    ),
                ),
            },
        },
    }
}

/// What a field of a record may be.
pub open spec fn record_flow(
    index: IndexModel,
    place: PlaceModel,
    record: Seq<char>,
    requested: Seq<char>,
    depth: int,
    steps: nat,
) -> Option<FlowModel>
    decreases steps, 4int, NAME_LIMIT - depth, 0int, 0int,
{
    if depth >= NAME_LIMIT {
        Some(unknown_flow(UnresolvedReason::AnalysisLimit))
    } else {
        let plain = trimmed(without_parentheses(record));
        let local = if is_identifier(plain) {
            local_value(index.facts, place.caller, plain, place.position)
        } else {
            None
        };
        match local {
            Some(fact) => record_flow(
                index,
                PlaceModel { position: Some(place_before(fact.span)), ..place },
                fact.value,
                requested,
                depth + 1,
                steps,
            ),
            None => match written_record(plain) {
                None => None,
                Some((rows, node)) => {
                    let name = after_last_dot(normal(requested));
                    match field_place(
                        rows,
                        children_of_kind(rows, node, "field_expression"@),
                        name,
                        0,
                    ) {
                        Some((field, path)) => match child_by_field(rows, field, "body"@) {
                            Some(body) => node_flow(index, place, rows, body, steps),
                            None => atom_flow(index, place, path, steps),
                        },
                        None => match child_by_field(rows, node, "record"@) {
                            Some(base) => record_flow(
                                index,
                                place,
                                rows[base].text,
                                name,
                                depth + 1,
                                steps,
                            ),
                            None => None,
                        },
                    }
                },
            },
        }
    }
}

/// The record that a text writes.
pub open spec fn written_record(text: Seq<char>) -> Option<(Seq<RowModel>, int)> {
    match syntax_rows(text, false) {
        None => None,
        Some(rows) => if rows.len() == 0 || rows[0].error {
            None
        } else {
            match first_named(rows, 0) {
                Some(first) => match record_node(rows, first) {
                    Some(node) => Some((rows, node)),
                    None => None,
                },
                None => None,
            }
        },
    }
}

/// Finds what an argument may be.
pub fn argument_callable_flow(
    index: &OcamlFlowIndex,
    place: &FlowPlace,
    argument: &str,
    steps: usize,
) -> (result: CallableFlow)
    ensures
        result@ == argument_flow(index@, place@, argument@, steps as nat),
    decreases steps, 3int, 0int, 0int,
{
    if let Some(module) = ocaml_module_package_path(argument) {
        return make_module_flow(index, place, &module);
    }
    let plain = normalize_ocaml_callable_argument(argument);
    if let Some(flow) = parse_ocaml_callable_flow(index, place, plain.as_str(), steps) {
        return flow;
    }
    match argument_callable_symbol(
        index.functions,
        index.known,
        plain.as_str(),
        place.caller,
        place.position,
    ) {
        Some(symbol) => CallableFlow::single(symbol),
        None => CallableFlow::unknown(UnresolvedReason::UnsupportedConstruct),
    }
}

/// Finds what an expression may be.
pub fn parse_ocaml_callable_flow(
    index: &OcamlFlowIndex,
    place: &FlowPlace,
    expression: &str,
    steps: usize,
) -> (result: Option<CallableFlow>)
    ensures
        optional_flow(result) == expression_flow(index@, place@, expression@, steps as nat),
    decreases steps, 2int, 0int, 0int,
{
    let rows = match parse_rows(expression, false) {
        Some(rows) => rows,
        None => {
            return None;
        },
    };
    proof {
        assert(views(rows@).len() == rows@.len());
    }
    if rows.len() == 0 {
        return None;
    }
    proof {
        assert(views(rows@)[0] == rows@[0]@);
    }
    if rows[0].error {
        return None;
    }
    match first_named_child(&rows, 0) {
        Some(node) => ocaml_callable_node_flow(index, place, &rows, node, steps),
        None => None,
    }
}

/// Finds what the expression at a node may be.
#[verifier::rlimit(30)]
pub fn ocaml_callable_node_flow(
    index: &OcamlFlowIndex,
    place: &FlowPlace,
    rows: &Vec<SyntaxRow>,
    node: usize,
    steps: usize,
) -> (result: Option<CallableFlow>)
    requires
        node < rows@.len(),
    ensures
        optional_flow(result) == node_flow(
            index@,
            place@,
            views(rows@),
            node as int,
            steps as nat,
        ),
    decreases steps, 1int, rows@.len() - node, 1int,
{
    proof {
        assert(views(rows@).len() == rows@.len());
        assert(views(rows@)[node as int] == rows@[node as int]@);
    }
    if is_function_expression(rows, node) {
        return make_found_flow(
            anonymous_callable_symbol_at(
                index.functions,
                rows[node].text.as_str(),
                place.caller,
                place.position,
            ),
        );
    }
    if is_kind(rows, node, "application_expression") {
        return follow_application(index, place, rows, node, steps);
    }
    if is_kind(rows, node, "field_get_expression") {
        let record = match child_by_field_name(rows, node, "record") {
            Some(record) => record,
            None => {
                return None;
            },
        };
        let field = match child_by_field_name(rows, node, "field") {
            Some(field) => field,
            None => {
                return None;
            },
        };
        if steps == 0 {
            return Some(CallableFlow::unknown(UnresolvedReason::AnalysisLimit));
        }
        proof {
            assert(views(rows@)[record as int] == rows@[record as int]@);
            assert(views(rows@)[field as int] == rows@[field as int]@);
        }
        return ocaml_record_field_flow(
            index,
            place,
            rows[record].text.as_str(),
            rows[field].text.as_str(),
            0,
            steps - 1,
        );
    }
    if names_value(rows, node) {
        if steps == 0 {
            return Some(CallableFlow::unknown(UnresolvedReason::AnalysisLimit));
        }
        return ocaml_callable_atom_flow(index, place, rows[node].text.as_str(), steps - 1);
    }
    if wraps_value(rows, node) {
        return match find_wrapped(rows, node) {
            Some(inner) => ocaml_callable_node_flow(index, place, rows, inner, steps),
            None => None,
        };
    }
    if is_kind(rows, node, "sequence_expression") {
        return match last_named_child(rows, node) {
            Some(last) => ocaml_callable_node_flow(index, place, rows, last, steps),
            None => None,
        };
    }
    if is_kind(rows, node, "if_expression") {
        let (mut flow, count) = follow_branches(index, place, rows, node, true, steps);
        if count < 2 {
            flow.add_doubt(UnresolvedReason::OpaqueInput);
        }
        return Some(flow);
    }
    if is_kind(rows, node, "match_expression") {
        let (flow, count) = follow_branches(index, place, rows, node, false, steps);
        return if count > 0 {
            Some(flow)
        } else {
            None
        };
    }
    None
}

fn follow_branches(
    index: &OcamlFlowIndex,
    place: &FlowPlace,
    rows: &Vec<SyntaxRow>,
    node: usize,
    condition: bool,
    steps: usize,
) -> (result: (CallableFlow, usize))
    requires
        node < rows@.len(),
    ensures
        (result.0@, result.1 as int) == ({
            let branches = branches_of(views(rows@), node as int, condition);
            branch_flow(
                index@,
                place@,
                views(rows@),
                node as int,
                branches,
                condition,
                branches.len() as int,
                steps as nat,
            )
        }),
    decreases steps, 1int, rows@.len() - node, 0int,
{
    let branches = find_branches(rows, node, condition);
    let ghost nodes = node_list(branches@);
    let mut flow = CallableFlow::empty();
    let mut count: usize = 0;
    let mut next: usize = 0;
    proof {
        assert(nodes.len() == branches@.len());
        assert(views(rows@).len() == rows@.len());
    }
    while next < branches.len()
        invariant
            next <= branches@.len(),
            count <= next,
            node < rows@.len(),
            views(rows@).len() == rows@.len(),
            nodes == node_list(branches@),
            forall|k: int|
                0 <= k < branches@.len() ==> node < #[trigger] branches@[k] < rows@.len(),
            (flow@, count as int) == branch_flow(
                index@,
                place@,
                views(rows@),
                node as int,
                nodes,
                condition,
                next as int,
                steps as nat,
            ),
        decreases branches@.len() - next,
    {
        let branch: usize = branches[next];
        proof {
            assert(nodes[next as int] == branch);
        }
        let field = if condition {
            "expression"
        } else {
            "body"
        };
        match child_by_field_name(rows, branch, field) {
            None => {
                flow.add_doubt(UnresolvedReason::UnsupportedConstruct);
            },
            Some(value) => {
                let more = match ocaml_callable_node_flow(index, place, rows, value, steps) {
                    Some(more) => more,
                    None => CallableFlow::unknown(UnresolvedReason::OpaqueInput),
                };
                merge_callable_flow(&mut flow, &more);
                count += 1;
            },
        }
        next += 1;
    }
    (flow, count)
}

#[verifier::rlimit(30)]
fn follow_application(
    index: &OcamlFlowIndex,
    place: &FlowPlace,
    rows: &Vec<SyntaxRow>,
    node: usize,
    steps: usize,
) -> (result: Option<CallableFlow>)
    requires
        node < rows@.len(),
    ensures
        optional_flow(result) == application_flow(
            index@,
            place@,
            views(rows@),
            node as int,
            steps as nat,
        ),
    decreases steps, 1int, rows@.len() - node, 0int,
{
    let function = match child_by_field_name(rows, node, "function") {
        Some(function) => function,
        None => {
            return None;
        },
    };
    let parts = match ocaml_value_path(rows, function) {
        Some(parts) => parts,
        None => {
            return None;
        },
    };
    let values = ocaml_application_arguments(rows, node, function);
    proof {
        assert(texts(values@).len() == values@.len());
    }
    let target = match resolve(
        index.functions,
        index.known,
        &parts,
        place.caller,
        place.position,
    ) {
        Some(target) => target,
        None => {
            let part = match find_pair_part(&parts) {
                Some(part) => part,
                None => {
                    return None;
                },
            };
            if values.len() == 0 {
                return None;
            }
            if steps == 0 {
                return Some(CallableFlow::unknown(UnresolvedReason::AnalysisLimit));
            }
            proof {
                assert(texts(values@)[0] == values@[0]@);
            }
            let mut projection: Vec<OcamlProjection> = Vec::new();
            projection.push(OcamlProjection::Tuple(part));
            proof {
                assert(views(projection@) =~= seq![StepModel::Tuple(part)]);
            }
            return projected_ocaml_callable_flow(
                index,
                place,
                values[0].as_str(),
                &projection,
                0,
                steps - 1,
            );
        },
    };
    let outcomes = ocaml_return_outcomes(index.facts, &target);
    proof {
        assert(texts(outcomes@).len() == outcomes@.len());
    }
    if find_function_at(index.functions, &target).is_none() || outcomes.len() == 0 {
        return None;
    }
    if steps == 0 {
        return Some(CallableFlow::unknown(UnresolvedReason::AnalysisLimit));
    }
    let bindings = ocaml_parameters(index.facts, &target);
    let context = follow_arguments(index, place, &bindings, &values, steps - 1);
    proof {
        assert(views(bindings@).len() == bindings@.len());
    }
    let inner = FlowPlace { caller: &target, context: &context, position: place.position };
    Some(follow_outcomes(index, &inner, &outcomes, steps - 1))
}

fn follow_arguments(
    index: &OcamlFlowIndex,
    place: &FlowPlace,
    bindings: &Vec<OcamlParameterBinding>,
    values: &Vec<String>,
    steps: usize,
) -> (result: Vec<CallableFlow>)
    ensures
        views(result@) == argument_flows(
            index@,
            place@,
            views(bindings@),
            texts(values@),
            bindings@.len() as int,
            steps as nat,
        ),
    decreases steps, 4int, 0int, 0int,
{
    let mut result: Vec<CallableFlow> = Vec::new();
    let mut next: usize = 0;
    proof {
        assert(views(result@) =~= Seq::empty());
    }
    while next < bindings.len()
        invariant
            next <= bindings@.len(),
            views(result@) == argument_flows(
                index@,
                place@,
                views(bindings@),
                texts(values@),
                next as int,
                steps as nat,
            ),
        decreases bindings@.len() - next,
    {
        proof {
            assert(views(bindings@)[next as int] == bindings@[next as int]@);
        }
        let ghost before = views(result@);
        let flow = match passed_argument(values, &bindings[next]) {
            Some(value) => argument_callable_flow(index, place, value.as_str(), steps),
            None => CallableFlow::unknown(UnresolvedReason::OpaqueInput),
        };
        let ghost model = flow@;
        result.push(flow);
        proof {
            assert(views(result@) =~= before.push(model));
        }
        next += 1;
    }
    result
}

fn follow_outcomes(
    index: &OcamlFlowIndex,
    place: &FlowPlace,
    outcomes: &Vec<String>,
    steps: usize,
) -> (result: CallableFlow)
    ensures
        result@ == outcome_flow(
            index@,
            place@,
            texts(outcomes@),
            outcomes@.len() as int,
            steps as nat,
        ),
    decreases steps, 4int, 0int, 0int,
{
    let mut flow = CallableFlow::empty();
    let mut next: usize = 0;
    while next < outcomes.len()
        invariant
            next <= outcomes@.len(),
            flow@ == outcome_flow(index@, place@, texts(outcomes@), next as int, steps as nat),
        decreases outcomes@.len() - next,
    {
        proof {
            assert(texts(outcomes@)[next as int] == outcomes@[next as int]@);
        }
        let more = argument_callable_flow(index, place, outcomes[next].as_str(), steps);
        merge_callable_flow(&mut flow, &more);
        next += 1;
    }
    flow
}

/// Finds what a part of an expression may be.
pub fn projected_ocaml_callable_flow(
    index: &OcamlFlowIndex,
    place: &FlowPlace,
    expression: &str,
    projection: &Vec<OcamlProjection>,
    depth: usize,
    steps: usize,
) -> (result: Option<CallableFlow>)
    ensures
        optional_flow(result) == projected_flow(
            index@,
            place@,
            expression@,
            views(projection@),
            depth as int,
            steps as nat,
        ),
    decreases steps, 4int, NAME_LIMIT - depth, 0int,
{
    if depth >= NAME_LIMIT {
        return Some(CallableFlow::unknown(UnresolvedReason::AnalysisLimit));
    }
    let plain = normalize_ocaml_callable_argument(expression);
    if is_value_identifier(plain.as_str()) {
        if let Some(fact) = scoped_ocaml_local_value(
            index.facts,
            place.caller,
            plain.as_str(),
            place.position,
        ) {
            let position = position_before_ocaml_scope(&fact.span);
            let inner = FlowPlace {
                caller: place.caller,
                context: place.context,
                position: Some(&position),
            };
            return projected_ocaml_callable_flow(
                index,
                &inner,
                fact.value.as_str(),
                projection,
                depth + 1,
                steps,
            );
        }
    }
    match project_ocaml_argument(plain.as_str(), projection) {
        Some(part) => Some(argument_callable_flow(index, place, part.as_str(), steps)),
        None => None,
    }
}

/// Finds what a name may be.
pub fn ocaml_callable_atom_flow(
    index: &OcamlFlowIndex,
    place: &FlowPlace,
    name: &str,
    steps: usize,
) -> (result: Option<CallableFlow>)
    ensures
        optional_flow(result) == atom_flow(index@, place@, name@, steps as nat),
    decreases steps, 3int, 0int, 0int,
{
    let plain = normalize_ocaml_callable_argument(name);
    if let Some(fact) = scoped_ocaml_local_value(
        index.facts,
        place.caller,
        plain.as_str(),
        place.position,
    ) {
        let position = position_before_ocaml_scope(&fact.span);
        let inner = FlowPlace {
            caller: place.caller,
            context: place.context,
            position: Some(&position),
        };
        return Some(
            match parse_ocaml_callable_flow(index, &inner, fact.value.as_str(), steps) {
                Some(flow) => flow,
                None => CallableFlow::unknown(UnresolvedReason::OpaqueInput),
            },
        );
    }
    let parameters = ocaml_parameters(index.facts, place.caller);
    if let Some(parameter) = find_of_kind(
        &parameters,
        OcamlParameterKind::Value,
        plain.as_str(),
        true,
        place.position,
    ) {
        return Some(find_flow_at(place.context, parameter, UnresolvedReason::OpaqueInput));
    }
    if let Some(symbol) = local_callable_at(
        index.functions,
        plain.as_str(),
        place.caller,
        index.facts,
        place.position,
    ) {
        return Some(CallableFlow::single(symbol));
    }
    make_found_flow(
        argument_callable_symbol(
            index.functions,
            index.known,
            plain.as_str(),
            place.caller,
            place.position,
        ),
    )
}

fn find_written_record(text: &str) -> (result: Option<(Vec<SyntaxRow>, usize)>)
    ensures
        match result {
            Some((rows, node)) => node < rows@.len() && written_record(text@) == Some(
                (views(rows@), node as int),
            ),
            None => written_record(text@) is None,
        },
{
    let rows = match parse_rows(text, false) {
        Some(rows) => rows,
        None => {
            return None;
        },
    };
    proof {
        assert(views(rows@).len() == rows@.len());
    }
    if rows.len() == 0 {
        return None;
    }
    proof {
        assert(views(rows@)[0] == rows@[0]@);
    }
    if rows[0].error {
        return None;
    }
    match first_named_child(&rows, 0) {
        Some(first) => match find_record(&rows, first) {
            Some(node) => Some((rows, node)),
            None => None,
        },
        None => None,
    }
}

/// Finds what a field of a record may be.
pub fn ocaml_record_field_flow(
    index: &OcamlFlowIndex,
    place: &FlowPlace,
    record: &str,
    requested: &str,
    depth: usize,
    steps: usize,
) -> (result: Option<CallableFlow>)
    ensures
        optional_flow(result) == record_flow(
            index@,
            place@,
            record@,
            requested@,
            depth as int,
            steps as nat,
        ),
    decreases steps, 4int, NAME_LIMIT - depth, 0int,
{
    if depth >= NAME_LIMIT {
        return Some(CallableFlow::unknown(UnresolvedReason::AnalysisLimit));
    }
    let plain = trim_text(strip_outer_ocaml_parentheses(record).as_str());
    if is_value_identifier(plain.as_str()) {
        if let Some(fact) = scoped_ocaml_local_value(
            index.facts,
            place.caller,
            plain.as_str(),
            place.position,
        ) {
            let position = position_before_ocaml_scope(&fact.span);
            let inner = FlowPlace {
                caller: place.caller,
                context: place.context,
                position: Some(&position),
            };
            return ocaml_record_field_flow(
                index,
                &inner,
                fact.value.as_str(),
                requested,
                depth + 1,
                steps,
            );
        }
    }
    let (rows, node) = match find_written_record(plain.as_str()) {
        Some(found) => found,
        None => {
            return None;
        },
    };
    let name = text_after_last_dot(normalize_source(requested).as_str());
    match find_field(&rows, node, name.as_str()) {
        Some((field, path)) => match child_by_field_name(&rows, field, "body") {
            Some(body) => ocaml_callable_node_flow(index, place, &rows, body, steps),
            None => ocaml_callable_atom_flow(index, place, path.as_str(), steps),
        },
        None => match child_by_field_name(&rows, node, "record") {
            Some(base) => {
                proof {
                    assert(views(rows@)[base as int] == rows@[base as int]@);
                }
                ocaml_record_field_flow(
                    index,
                    place,
                    rows[base].text.as_str(),
                    name.as_str(),
                    depth + 1,
                    steps,
                )
            },
            None => None,
        },
    }
}

} // verus!
