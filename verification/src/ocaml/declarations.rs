//! The functions that OCaml sources declare.
use crate::lists::views;
use crate::model::{
    site_models, symbol_text, CallLabel, FactModel, FunctionInfo, FunctionModel, LabelModel,
    LanguageFact, SymbolId, SymbolModel,
};
use crate::ocaml::expressions::{
    calls_in_body, collect_calls, is_function_expression, is_function_node, outcomes,
    plain_node_text, plain_text,
};
use crate::ocaml::extract::{
    append_facts, both, collect_ocaml_local_value_facts,
    collect_ocaml_parameter_refinement_facts, default_label, label_parameters,
    label_typed_parameters, local_values, make_fact, make_parameter_facts, make_return_facts,
    make_symbol, no_facts, no_findings, ocaml_fact, ocaml_symbol, only_facts, only_function,
    parameter_default_label, parameter_facts, parameter_labels, push_fact, refinements_in,
    return_facts, some_typed, typed_labels, Findings, FindingsModel,
};
use crate::ocaml::labels::{
    anonymous_callable_base, anonymous_callable_identity, applied, apply_name, lambda_name,
    lambda_of, local_callable_label, local_label, qualified, qualify,
};
use crate::ocaml::patterns::{is_identifier, is_value_identifier};
use crate::ocaml::syntax::{
    child_by_field, child_by_field_name, children_of_kind, direct_named_children, end_of,
    ends_are_behind, fields_are_behind, find_end, find_parent, is_kind, node_list, optional_node,
    parent_of, span_of, sum_of, tree_sitter_span, RowModel, SyntaxRow,
};
use crate::paths::SourcePath;
use crate::text::{
    concat_texts, decimal, decimal_text, join_texts, joined, starts_with, starts_with_text, texts,
    trim_text, trimmed,
};
use vstd::prelude::*;

verus! {

/// The parameters of a body that begins with anonymous functions, the body
/// within them, and whether there is one.
pub open spec fn unfolded(rows: Seq<RowModel>, body: int) -> (Seq<int>, int, bool)
    decreases rows.len() - body,
    when 0 <= body < rows.len()
{
    if rows[body].kind == "fun_expression"@ {
        let parameters = children_of_kind(rows, body, "parameter"@);
        proof {
            fields_are_behind(rows, body + 1, end_of(rows, body), "body"@);
        }
        match child_by_field(rows, body, "body"@) {
            Some(inner) => {
                let (more, last, is_function) = unfolded(rows, inner);
                (parameters + more, last, true)
            },
            None => (parameters, body, true),
        }
    } else if rows[body].kind == "function_expression"@ {
        (seq![body], body, true)
    } else {
        (Seq::empty(), body, false)
    }
}

fn unfold(rows: &Vec<SyntaxRow>, body: usize) -> (result: (Vec<usize>, usize, bool))
    requires
        body < rows@.len(),
    ensures
        (node_list(result.0@), result.1 as int, result.2) == unfolded(views(rows@), body as int),
        body <= result.1 < rows@.len(),
        forall|place: int|
            0 <= place < result.0@.len() ==> #[trigger] result.0@[place] < rows@.len(),
    decreases rows@.len() - body,
{
    proof {
        assert(views(rows@).len() == rows@.len());
    }
    if is_kind(rows, body, "fun_expression") {
        let mut parameters = direct_named_children(rows, body, "parameter");
        match child_by_field_name(rows, body, "body") {
            Some(inner) => {
                let (mut more, last, _) = unfold(rows, inner);
                let ghost before = parameters@;
                let ghost added = more@;
                parameters.append(&mut more);
                proof {
                    assert(node_list(parameters@) =~= node_list(before) + node_list(added));
                    assert forall|place: int| 0 <= place < parameters@.len() implies
                        #[trigger] parameters@[place] < rows@.len() by {
                        if place < before.len() {
                            assert(parameters@[place] == before[place]);
                        } else {
                            assert(parameters@[place] == added[place - before.len()]);
                        }
                    }
                }
                (parameters, last, true)
            },
            None => (parameters, body, true),
        }
    } else {
        let mut parameters: Vec<usize> = Vec::new();
        if is_kind(rows, body, "function_expression") {
            parameters.push(body);
            proof {
                assert(node_list(parameters@) =~= seq![body as int]);
            }
            (parameters, body, true)
        } else {
            proof {
                assert(node_list(parameters@) =~= Seq::empty());
            }
            (parameters, body, false)
        }
    }
}

/// The label of a declaration.
pub open spec fn declaration_label(id: SymbolModel, labels: Seq<Seq<char>>) -> Seq<char> {
    applied(qualified(id.module, id.name), labels)
}

/// The label of a declaration.
pub fn ocaml_declaration_label(id: &SymbolId, labels: &Vec<String>) -> (result: String)
    ensures
        result@ == declaration_label(id@, texts(labels@)),
{
    apply_name(qualify(&id.module, id.name.as_str()).as_str(), labels)
}

/// The label of a function with parameters.
pub open spec fn function_label(rows: Seq<RowModel>, id: SymbolModel, parameters: Seq<int>) -> LabelModel {
    LabelModel {
        default: declaration_label(id, parameter_labels(rows, parameters)),
        typed: if some_typed(rows, parameters) {
            Some(declaration_label(id, typed_labels(rows, parameters)))
        } else {
            None
        },
    }
}

/// The name that a binding gives, if it gives one to a function, with its
/// parameters and its body.
pub open spec fn bound_function(rows: Seq<RowModel>, binding: int) -> Option<
    (Seq<char>, Seq<int>, int),
> {
    match child_by_field(rows, binding, "pattern"@) {
        None => None,
        Some(pattern) => {
            let name = trimmed(rows[pattern].text);
            if !(rows[pattern].kind == "value_name"@ || rows[pattern].kind == "value_pattern"@)
                || !is_identifier(name) {
                None
            } else {
                match child_by_field(rows, binding, "body"@) {
                    None => None,
                    Some(body) => {
                        let (more, last, is_function) = unfolded(rows, body);
                        let parameters = children_of_kind(rows, binding, "parameter"@) + more;
                        if parameters.len() == 0 && !is_function {
                            None
                        } else {
                            Some((name, parameters, last))
                        }
                    },
                }
            }
        },
    }
}

/// What is known of a function: of its parameters, of what it returns, of its
/// local values and of parameters that it takes apart.
pub open spec fn function_facts(
    rows: Seq<RowModel>,
    file: Seq<char>,
    id: SymbolModel,
    parameters: Seq<int>,
    body: int,
) -> Seq<FactModel> {
    let names = outcomes(rows, body, Seq::empty());
    parameter_facts(rows, file, id, parameters, parameters.len() as int) + return_facts(
        id,
        names,
        span_of(file, rows[body]),
        names.len() as int,
    ) + local_values(rows, file, id, body) + refinements_in(rows, file, id, body)
}

/// The function that a binding declares, and what is known of it.
pub open spec fn declared_function(
    rows: Seq<RowModel>,
    file: Seq<char>,
    module: Seq<Seq<char>>,
    binding: int,
) -> Option<(FunctionModel, Seq<FactModel>)> {
    match bound_function(rows, binding) {
        None => None,
        Some((name, parameters, body)) => {
            let id = ocaml_symbol(module, None, name);
            Some(
                (
                    FunctionModel {
                        id,
                        label: function_label(rows, id, parameters),
                        public: true,
                        calls: calls_in_body(rows, file, body),
                        span: span_of(file, rows[binding]),
                    },
                    function_facts(rows, file, id, parameters, body),
                ),
            )
        },
    }
}

fn find_bound_function(rows: &Vec<SyntaxRow>, binding: usize) -> (result: Option<
    (String, Vec<usize>, usize),
>)
    requires
        binding < rows@.len(),
    ensures
        match result {
            Some((name, parameters, body)) => {
                &&& bound_function(views(rows@), binding as int) == Some(
                    (name@, node_list(parameters@), body as int),
                )
                &&& binding < body < rows@.len()
                &&& forall|place: int|
                    0 <= place < parameters@.len() ==> #[trigger] parameters@[place] < rows@.len()
            },
            None => bound_function(views(rows@), binding as int) is None,
        },
{
    let pattern = match child_by_field_name(rows, binding, "pattern") {
        Some(pattern) => pattern,
        None => {
            return None;
        },
    };
    proof {
        assert(views(rows@)[pattern as int] == rows@[pattern as int]@);
    }
    let name = trim_text(rows[pattern].text.as_str());
    if !(is_kind(rows, pattern, "value_name") || is_kind(rows, pattern, "value_pattern"))
        || !is_value_identifier(name.as_str()) {
        return None;
    }
    let body = match child_by_field_name(rows, binding, "body") {
        Some(body) => body,
        None => {
            return None;
        },
    };
    let mut parameters = direct_named_children(rows, binding, "parameter");
    let (mut more, last, is_function) = unfold(rows, body);
    let ghost before = parameters@;
    let ghost added = more@;
    parameters.append(&mut more);
    proof {
        assert(node_list(parameters@) =~= node_list(before) + node_list(added));
        assert(node_list(parameters@).len() == parameters@.len());
        assert forall|place: int| 0 <= place < parameters@.len() implies
            #[trigger] parameters@[place] < rows@.len() by {
            if place < before.len() {
                assert(parameters@[place] == before[place]);
            } else {
                assert(parameters@[place] == added[place - before.len()]);
            }
        }
    }
    if parameters.len() == 0 && !is_function {
        None
    } else {
        Some((name, parameters, last))
    }
}

fn make_function_facts(
    rows: &Vec<SyntaxRow>,
    file: &SourcePath,
    id: &SymbolId,
    parameters: &Vec<usize>,
    body: usize,
) -> (result: Vec<LanguageFact>)
    requires
        body < rows@.len(),
        forall|index: int|
            0 <= index < parameters@.len() ==> #[trigger] parameters@[index] < rows@.len(),
    ensures
        views(result@) == function_facts(
            views(rows@),
            file@,
            id@,
            node_list(parameters@),
            body as int,
        ),
{
    proof {
        assert(node_list(parameters@).len() == parameters@.len());
    }
    let mut result = make_parameter_facts(rows, file, id, parameters);
    append_facts(&mut result, make_return_facts(rows, file, id, body));
    append_facts(&mut result, collect_ocaml_local_value_facts(rows, file, id, body));
    append_facts(&mut result, collect_ocaml_parameter_refinement_facts(rows, file, id, body));
    result
}

fn make_label(rows: &Vec<SyntaxRow>, id: &SymbolId, parameters: &Vec<usize>) -> (result: CallLabel)
    requires
        forall|index: int|
            0 <= index < parameters@.len() ==> #[trigger] parameters@[index] < rows@.len(),
    ensures
        result@ == function_label(views(rows@), id@, node_list(parameters@)),
{
    let labels = label_parameters(rows, parameters);
    let (typed, found) = label_typed_parameters(rows, parameters);
    CallLabel {
        default: ocaml_declaration_label(id, &labels),
        typed: if found {
            Some(ocaml_declaration_label(id, &typed))
        } else {
            None
        },
    }
}

/// The function that a binding declares, and what is known of it.
pub fn function_from_binding(
    rows: &Vec<SyntaxRow>,
    file: &SourcePath,
    module: &Vec<String>,
    binding: usize,
) -> (result: Option<(FunctionInfo, Vec<LanguageFact>)>)
    requires
        binding < rows@.len(),
    ensures
        match result {
            Some((function, facts)) => declared_function(
                views(rows@),
                file@,
                texts(module@),
                binding as int,
            ) == Some((function@, views(facts@))),
            None => declared_function(views(rows@), file@, texts(module@), binding as int) is None,
        },
{
    match find_bound_function(rows, binding) {
        None => None,
        Some((name, parameters, body)) => {
            let id = make_symbol(module, None, name.as_str());
            let label = make_label(rows, &id, &parameters);
            let facts = make_function_facts(rows, file, &id, &parameters, body);
            let calls = collect_calls(rows, file, body);
            proof {
                assert(views(rows@)[binding as int] == rows@[binding as int]@);
                assert(site_models(calls@) =~= views(calls@));
            }
            let span = tree_sitter_span(file, &rows[binding]);
            Some((FunctionInfo { id, label, public: true, calls, span }, facts))
        },
    }
}

/// Where a local function can be called.
pub open spec fn callable_scope(rows: Seq<RowModel>, binding: int) -> Option<int> {
    match parent_of(rows, binding) {
        Some(definition) if rows[definition].kind == "value_definition"@ => match parent_of(
            rows,
            definition,
        ) {
            Some(expression) if rows[expression].kind == "let_expression"@ => if starts_with(
                plain_text(rows, definition),
                "let rec "@,
            ) {
                Some(expression)
            } else {
                child_by_field(rows, expression, "body"@)
            },
            _ => None,
        },
        _ => None,
    }
}

/// Where a local function can be called.
pub fn ocaml_local_callable_scope(rows: &Vec<SyntaxRow>, binding: usize) -> (result: Option<usize>)
    requires
        binding < rows@.len(),
    ensures
        optional_node(result) == callable_scope(views(rows@), binding as int),
        result is Some ==> result->0 < rows@.len(),
{
    match find_parent(rows, binding) {
        Some(definition) => {
            if !is_kind(rows, definition, "value_definition") {
                return None;
            }
            match find_parent(rows, definition) {
                Some(expression) => {
                    if !is_kind(rows, expression, "let_expression") {
                        return None;
                    }
                    if starts_with_text(plain_node_text(rows, definition).as_str(), "let rec ") {
                        Some(expression)
                    } else {
                        child_by_field_name(rows, expression, "body")
                    }
                },
                None => None,
            }
        },
        None => None,
    }
}

/// Facts with another subject for those of one.
pub open spec fn with_subject(facts: Seq<FactModel>, old_id: SymbolModel, new_id: SymbolModel) -> Seq<
    FactModel,
> {
    facts.map_values(
        |fact: FactModel|
            if fact.subject == old_id {
                FactModel { subject: new_id, ..fact }
            } else {
                fact
            },
    )
}

fn change_subject(facts: &mut Vec<LanguageFact>, old_id: &SymbolId, new_id: &SymbolId)
    ensures
        views(final(facts)@) == with_subject(views(old(facts)@), old_id@, new_id@),
{
    let ghost start = views(facts@);
    let mut result: Vec<LanguageFact> = Vec::new();
    let mut index: usize = 0;
    while index < facts.len()
        invariant
            index <= facts@.len(),
            start == views(facts@),
            result@.len() == index,
            forall|k: int|
                0 <= k < index ==> (#[trigger] result@[k])@ == with_subject(
                    start,
                    old_id@,
                    new_id@,
                )[k],
        decreases facts@.len() - index,
    {
        let mut fact = facts[index].clone();
        proof {
            assert(start[index as int] == facts@[index as int]@);
        }
        if fact.subject.same(old_id) {
            fact.subject = new_id.clone();
        }
        result.push(fact);
        index += 1;
    }
    proof {
        assert(views(result@) =~= with_subject(start, old_id@, new_id@));
    }
    *facts = result;
}

/// A local function: with its number, and in the function that it is local to.
pub open spec fn local_function(
    function: FunctionModel,
    owner: SymbolModel,
    ordinal: usize,
) -> FunctionModel {
    FunctionModel {
        id: SymbolModel {
            container: Some(symbol_text(owner)),
            name: function.id.name + "#closure"@ + decimal(ordinal as nat),
            ..function.id
        },
        label: LabelModel {
            default: local_label(function.label.default, function.id.name, ordinal as nat),
            typed: match function.label.typed {
                Some(typed) => Some(local_label(typed, function.id.name, ordinal as nat)),
                None => None,
            },
        },
        ..function
    }
}

/// The fact on where a local function can be called.
pub open spec fn scope_facts(
    rows: Seq<RowModel>,
    file: Seq<char>,
    id: SymbolModel,
    name: Seq<char>,
    binding: int,
) -> Seq<FactModel> {
    match callable_scope(rows, binding) {
        Some(scope) => seq![
            ocaml_fact(
                id,
                "local-callable-scope"@,
                name,
                Seq::empty(),
                span_of(file, rows[scope]),
            ),
        ],
        None => Seq::empty(),
    }
}

/// The parameters of an anonymous function.
pub open spec fn lambda_parameters(rows: Seq<RowModel>, node: int) -> Seq<int> {
    if rows[node].kind == "fun_expression"@ {
        children_of_kind(rows, node, "parameter"@)
    } else {
        Seq::empty()
    }
}

/// How the parameters of an anonymous function are shown.
pub open spec fn lambda_labels(rows: Seq<RowModel>, node: int) -> Seq<Seq<char>> {
    let parameters = lambda_parameters(rows, node);
    if parameters.len() == 0 {
        seq!["_"@]
    } else {
        parameters.map_values(|parameter: int| default_label(rows, parameter))
    }
}

/// The name of an anonymous function without its number.
pub open spec fn lambda_base(rows: Seq<RowModel>, node: int) -> Seq<char> {
    match lambda_of(rows[node].text) {
        Some(base) => base,
        None => lambda_name(rows[node].text),
    }
}

/// The body of an anonymous function.
pub open spec fn lambda_body(rows: Seq<RowModel>, node: int) -> int {
    match child_by_field(rows, node, "body"@) {
        Some(body) => body,
        None => node,
    }
}

/// The symbol of an anonymous function.
pub open spec fn lambda_symbol(
    rows: Seq<RowModel>,
    module: Seq<Seq<char>>,
    owner: SymbolModel,
    node: int,
    ordinal: usize,
) -> SymbolModel {
    ocaml_symbol(
        module,
        Some(symbol_text(owner)),
        lambda_base(rows, node) + "#closure"@ + decimal(ordinal as nat),
    )
}

/// An anonymous function.
pub open spec fn lambda_function(
    rows: Seq<RowModel>,
    file: Seq<char>,
    module: Seq<Seq<char>>,
    owner: SymbolModel,
    node: int,
    ordinal: usize,
) -> FunctionModel {
    FunctionModel {
        id: lambda_symbol(rows, module, owner, node, ordinal),
        label: LabelModel {
            default: "λ#"@ + decimal(sum_of(ordinal as int, 1) as nat) + " "@ + joined(
                lambda_labels(rows, node),
                " "@,
            ),
            typed: None,
        },
        public: false,
        calls: calls_in_body(rows, file, lambda_body(rows, node)),
        span: span_of(file, rows[node]),
    }
}

/// What is known of an anonymous function.
pub open spec fn lambda_facts(
    rows: Seq<RowModel>,
    file: Seq<char>,
    module: Seq<Seq<char>>,
    owner: SymbolModel,
    node: int,
    ordinal: usize,
) -> Seq<FactModel> {
    let id = lambda_symbol(rows, module, owner, node, ordinal);
    let parameters = lambda_parameters(rows, node);
    seq![
        ocaml_fact(
            id,
            "closure-expression"@,
            lambda_base(rows, node),
            plain_text(rows, node),
            span_of(file, rows[node]),
        ),
    ] + parameter_facts(rows, file, id, parameters, parameters.len() as int) + refinements_in(
        rows,
        file,
        id,
        lambda_body(rows, node),
    )
}

/// What is found in nested functions, and the number of the next.
pub open spec fn nested_among(
    rows: Seq<RowModel>,
    file: Seq<char>,
    module: Seq<Seq<char>>,
    owner: SymbolModel,
    at: int,
    end: int,
    ordinal: usize,
) -> (FindingsModel, usize)
    decreases rows.len() - at, 2int,
{
    if at < 0 || at >= end || at >= rows.len() {
        (no_findings(), ordinal)
    } else {
        proof {
            ends_are_behind(rows, at);
        }
        if rows[at].named {
            let (first, next) = nested_in(rows, file, module, owner, at, ordinal);
            let (rest, last) = nested_among(
                rows,
                file,
                module,
                owner,
                end_of(rows, at),
                end,
                next,
            );
            (both(first, rest), last)
        } else {
            nested_among(rows, file, module, owner, end_of(rows, at), end, ordinal)
        }
    }
}

/// What is found in the functions nested in a node, and the number of the
/// next.
pub open spec fn nested_in(
    rows: Seq<RowModel>,
    file: Seq<char>,
    module: Seq<Seq<char>>,
    owner: SymbolModel,
    node: int,
    ordinal: usize,
) -> (FindingsModel, usize)
    decreases rows.len() - node, 1int,
    when 0 <= node < rows.len()
{
    let next = sum_of(ordinal as int, 1);
    let declared = if rows[node].kind == "let_binding"@ {
        declared_function(rows, file, module, node)
    } else {
        None
    };
    match declared {
        Some((function, facts)) => {
            let local = local_function(function, owner, ordinal);
            (
                both(
                    both(
                        only_facts(
                            with_subject(facts, function.id, local.id) + scope_facts(
                                rows,
                                file,
                                local.id,
                                function.id.name,
                                node,
                            ),
                        ),
                        only_function(local),
                    ),
                    nested_in_binding(rows, file, module, local.id, node),
                ),
                next,
            )
        },
        None => if is_function_node(rows, node) {
            let lambda = lambda_function(rows, file, module, owner, node, ordinal);
            let body = lambda_body(rows, node);
            proof {
                fields_are_behind(rows, node + 1, end_of(rows, node), "body"@);
            }
            (
                both(
                    both(
                        only_facts(lambda_facts(rows, file, module, owner, node, ordinal)),
                        only_function(lambda),
                    ),
                    nested_among(rows, file, module, lambda.id, body + 1, end_of(rows, body), 0).0,
                ),
                next,
            )
        } else {
            nested_among(rows, file, module, owner, node + 1, end_of(rows, node), ordinal)
        },
    }
}

/// The body of a binding within the anonymous functions that it begins with.
pub open spec fn inner_body(rows: Seq<RowModel>, body: int) -> Option<int>
    decreases rows.len() - body,
    when 0 <= body < rows.len()
{
    if rows[body].kind == "fun_expression"@ {
        proof {
            fields_are_behind(rows, body + 1, end_of(rows, body), "body"@);
        }
        match child_by_field(rows, body, "body"@) {
            Some(inner) => inner_body(rows, inner),
            None => None,
        }
    } else {
        Some(body)
    }
}

/// The inner body comes not before the body.
pub proof fn inner_bodies_are_behind(rows: Seq<RowModel>, body: int)
    requires
        0 <= body < rows.len(),
    ensures
        match inner_body(rows, body) {
            Some(inner) => body <= inner < rows.len(),
            None => true,
        },
    decreases rows.len() - body,
{
    if rows[body].kind == "fun_expression"@ {
        fields_are_behind(rows, body + 1, end_of(rows, body), "body"@);
        match child_by_field(rows, body, "body"@) {
            Some(inner) => {
                inner_bodies_are_behind(rows, inner);
            },
            None => {},
        }
    }
}

/// What is found in the functions nested in the body of a binding.
pub open spec fn nested_in_binding(
    rows: Seq<RowModel>,
    file: Seq<char>,
    module: Seq<Seq<char>>,
    owner: SymbolModel,
    binding: int,
) -> FindingsModel
    decreases rows.len() - binding, 0int,
    when 0 <= binding < rows.len()
{
    proof {
        fields_are_behind(rows, binding + 1, end_of(rows, binding), "body"@);
    }
    match child_by_field(rows, binding, "body"@) {
        None => no_findings(),
        Some(body) => {
            proof {
                inner_bodies_are_behind(rows, body);
            }
            match inner_body(rows, body) {
                None => no_findings(),
                Some(inner) => if rows[inner].kind == "function_expression"@ {
                    nested_among(
                        rows,
                        file,
                        module,
                        owner,
                        inner + 1,
                        end_of(rows, inner),
                        0,
                    ).0
                } else {
                    nested_in(rows, file, module, owner, inner, 0).0
                },
            }
        },
    }
}

fn make_local_function(function: FunctionInfo, owner: &SymbolId, ordinal: usize) -> (result:
    FunctionInfo)
    ensures
        result@ == local_function(function@, owner@, ordinal),
{
    let label = local_callable_label(&function.label, function.id.name.as_str(), ordinal);
    let mut name = concat_texts(function.id.name.as_str(), "#closure");
    name.append(decimal_text(ordinal).as_str());
    FunctionInfo {
        id: SymbolId {
            language: function.id.language,
            module: function.id.module,
            container: Some(owner.to_text()),
            name,
        },
        label,
        public: function.public,
        calls: function.calls,
        span: function.span,
    }
}

fn make_scope_facts(
    rows: &Vec<SyntaxRow>,
    file: &SourcePath,
    id: &SymbolId,
    name: &str,
    binding: usize,
) -> (result: Vec<LanguageFact>)
    requires
        binding < rows@.len(),
    ensures
        views(result@) == scope_facts(views(rows@), file@, id@, name@, binding as int),
{
    let mut result = no_facts();
    match ocaml_local_callable_scope(rows, binding) {
        Some(scope) => {
            proof {
                assert(views(rows@)[scope as int] == rows@[scope as int]@);
                reveal_strlit("");
                assert(""@ =~= Seq::empty());
            }
            push_fact(
                &mut result,
                make_fact(
                    id,
                    "local-callable-scope",
                    name,
                    "",
                    tree_sitter_span(file, &rows[scope]),
                ),
            );
            proof {
                assert(views(result@) =~= seq![views(result@)[0]]);
            }
        },
        None => {},
    }
    result
}

fn find_lambda_parameters(rows: &Vec<SyntaxRow>, node: usize) -> (result: Vec<usize>)
    requires
        node < rows@.len(),
    ensures
        node_list(result@) == lambda_parameters(views(rows@), node as int),
        forall|place: int|
            0 <= place < result@.len() ==> #[trigger] result@[place] < rows@.len(),
{
    if is_kind(rows, node, "fun_expression") {
        direct_named_children(rows, node, "parameter")
    } else {
        let result: Vec<usize> = Vec::new();
        proof {
            assert(node_list(result@) =~= Seq::empty());
        }
        result
    }
}

fn find_lambda_labels(rows: &Vec<SyntaxRow>, node: usize) -> (result: Vec<String>)
    requires
        node < rows@.len(),
    ensures
        texts(result@) == lambda_labels(views(rows@), node as int),
{
    let parameters = find_lambda_parameters(rows, node);
    let ghost nodes = node_list(parameters@);
    let mut result: Vec<String> = Vec::new();
    proof {
        assert(nodes.len() == parameters@.len());
    }
    if parameters.len() == 0 {
        result.push("_".to_owned());
        proof {
            assert(texts(result@) =~= seq!["_"@]);
        }
        return result;
    }
    let mut index: usize = 0;
    while index < parameters.len()
        invariant
            index <= parameters@.len(),
            nodes == node_list(parameters@),
            forall|k: int|
                0 <= k < parameters@.len() ==> #[trigger] parameters@[k] < rows@.len(),
            result@.len() == index,
            forall|k: int|
                0 <= k < index ==> (#[trigger] result@[k])@ == default_label(
                    views(rows@),
                    nodes[k],
                ),
        decreases parameters@.len() - index,
    {
        proof {
            assert(nodes[index as int] == parameters@[index as int]);
        }
        result.push(parameter_default_label(rows, parameters[index]));
        index += 1;
    }
    proof {
        assert(texts(result@) =~= lambda_labels(views(rows@), node as int));
    }
    result
}

fn find_lambda_base(rows: &Vec<SyntaxRow>, node: usize) -> (result: String)
    requires
        node < rows@.len(),
    ensures
        result@ == lambda_base(views(rows@), node as int),
{
    proof {
        assert(views(rows@)[node as int] == rows@[node as int]@);
    }
    match anonymous_callable_base(rows[node].text.as_str()) {
        Some(base) => base,
        None => anonymous_callable_identity(rows[node].text.as_str()),
    }
}

fn find_lambda_body(rows: &Vec<SyntaxRow>, node: usize) -> (result: usize)
    requires
        node < rows@.len(),
    ensures
        result == lambda_body(views(rows@), node as int),
        node <= result < rows@.len(),
{
    match child_by_field_name(rows, node, "body") {
        Some(body) => body,
        None => node,
    }
}

fn make_lambda(
    rows: &Vec<SyntaxRow>,
    file: &SourcePath,
    module: &Vec<String>,
    owner: &SymbolId,
    node: usize,
    ordinal: usize,
) -> (result: FunctionInfo)
    requires
        node < rows@.len(),
    ensures
        result@ == lambda_function(
            views(rows@),
            file@,
            texts(module@),
            owner@,
            node as int,
            ordinal,
        ),
{
    let mut name = concat_texts(find_lambda_base(rows, node).as_str(), "#closure");
    name.append(decimal_text(ordinal).as_str());
    let id = make_symbol(module, Some(owner.to_text()), name.as_str());
    let mut label = concat_texts("λ#", decimal_text(ordinal.saturating_add(1)).as_str());
    label.append(" ");
    label.append(join_texts(&find_lambda_labels(rows, node), " ").as_str());
    let body: usize = find_lambda_body(rows, node);
    let calls = collect_calls(rows, file, body);
    proof {
        assert(views(rows@)[node as int] == rows@[node as int]@);
        assert(site_models(calls@) =~= views(calls@));
    }
    FunctionInfo {
        id,
        label: CallLabel { default: label, typed: None },
        public: false,
        calls,
        span: tree_sitter_span(file, &rows[node]),
    }
}

fn make_lambda_facts(
    rows: &Vec<SyntaxRow>,
    file: &SourcePath,
    id: &SymbolId,
    node: usize,
    Ghost(module): Ghost<Seq<Seq<char>>>,
    Ghost(owner): Ghost<SymbolModel>,
    ordinal: usize,
) -> (result: Vec<LanguageFact>)
    requires
        node < rows@.len(),
        id@ == lambda_symbol(views(rows@), module, owner, node as int, ordinal),
    ensures
        views(result@) == lambda_facts(
            views(rows@),
            file@,
            module,
            owner,
            node as int,
            ordinal,
        ),
{
    let mut result = no_facts();
    proof {
        assert(views(rows@)[node as int] == rows@[node as int]@);
    }
    let fact = make_fact(
        id,
        "closure-expression",
        find_lambda_base(rows, node).as_str(),
        plain_node_text(rows, node).as_str(),
        tree_sitter_span(file, &rows[node]),
    );
    let ghost first = fact@;
    push_fact(&mut result, fact);
    proof {
        assert(views(result@) =~= seq![first]);
    }
    let parameters = find_lambda_parameters(rows, node);
    proof {
        assert(node_list(parameters@).len() == parameters@.len());
    }
    append_facts(&mut result, make_parameter_facts(rows, file, id, &parameters));
    let body: usize = find_lambda_body(rows, node);
    append_facts(&mut result, collect_ocaml_parameter_refinement_facts(rows, file, id, body));
    result
}

fn collect_nested_below(
    rows: &Vec<SyntaxRow>,
    file: &SourcePath,
    module: &Vec<String>,
    owner: &SymbolId,
    node: usize,
    start: usize,
) -> (result: (Findings, usize))
    requires
        node < rows@.len(),
    ensures
        (result.0@, result.1) == nested_among(
            views(rows@),
            file@,
            texts(module@),
            owner@,
            node + 1,
            end_of(views(rows@), node as int),
            start,
        ),
    decreases rows@.len() - node, 0int,
{
    let ghost model = views(rows@);
    let end: usize = find_end(rows, node);
    let mut found = Findings::none();
    let mut ordinal: usize = start;
    let mut at: usize = node + 1;
    let ghost whole = nested_among(
        model,
        file@,
        texts(module@),
        owner@,
        node + 1,
        end as int,
        start,
    );
    proof {
        assert(both(found@, whole.0) =~= whole.0);
    }
    while at < end
        invariant
            node < at <= rows@.len(),
            end <= rows@.len(),
            model == views(rows@),
            ({
                let (rest, last) = nested_among(
                    model,
                    file@,
                    texts(module@),
                    owner@,
                    at as int,
                    end as int,
                    ordinal,
                );
                (both(found@, rest), last) == whole
            }),
        decreases rows@.len() - at,
    {
        let ghost before = found@;
        let next: usize = find_end(rows, at);
        proof {
            assert(model[at as int] == rows@[at as int]@);
        }
        if rows[at].named {
            let (more, after) = collect_nested_callables(rows, file, module, owner, at, ordinal);
            let ghost added = more@;
            found.append(more);
            proof {
                let (rest, last) = nested_among(
                    model,
                    file@,
                    texts(module@),
                    owner@,
                    next as int,
                    end as int,
                    after,
                );
                assert(both(before, both(added, rest)) =~= both(both(before, added), rest));
            }
            ordinal = after;
        }
        at = next;
    }
    proof {
        assert(both(found@, no_findings()) =~= found@);
    }
    (found, ordinal)
}

/// Finds the functions nested in a node, and the number of the next.
pub fn collect_nested_callables(
    rows: &Vec<SyntaxRow>,
    file: &SourcePath,
    module: &Vec<String>,
    owner: &SymbolId,
    node: usize,
    ordinal: usize,
) -> (result: (Findings, usize))
    requires
        node < rows@.len(),
    ensures
        (result.0@, result.1) == nested_in(
            views(rows@),
            file@,
            texts(module@),
            owner@,
            node as int,
            ordinal,
        ),
    decreases rows@.len() - node, 2int,
{
    proof {
        assert(views(rows@).len() == rows@.len());
    }
    let declared = if is_kind(rows, node, "let_binding") {
        function_from_binding(rows, file, module, node)
    } else {
        None
    };
    match declared {
        Some((function, facts)) => {
            let mut facts = facts;
            let old_id = function.id.clone();
            let local = make_local_function(function, owner, ordinal);
            let id = local.id.clone();
            change_subject(&mut facts, &old_id, &id);
            let scope = make_scope_facts(rows, file, &id, old_id.name.as_str(), node);
            append_facts(&mut facts, scope);
            let mut found = Findings::none();
            let ghost known = views(facts@);
            found.add_facts(facts);
            proof {
                assert(found@ =~= only_facts(known));
            }
            found.add_function(local);
            let nested = collect_nested_callables_from_binding(rows, file, module, &id, node);
            found.append(nested);
            (found, ordinal.saturating_add(1))
        },
        None => {
            if is_function_expression(rows, node) {
                let lambda = make_lambda(rows, file, module, owner, node, ordinal);
                let id = lambda.id.clone();
                let facts = make_lambda_facts(
                    rows,
                    file,
                    &id,
                    node,
                    Ghost(texts(module@)),
                    Ghost(owner@),
                    ordinal,
                );
                let mut found = Findings::none();
                let ghost known = views(facts@);
                found.add_facts(facts);
                proof {
                    assert(found@ =~= only_facts(known));
                }
                found.add_function(lambda);
                let body: usize = find_lambda_body(rows, node);
                let (nested, _) = collect_nested_below(rows, file, module, &id, body, 0);
                found.append(nested);
                (found, ordinal.saturating_add(1))
            } else {
                collect_nested_below(rows, file, module, owner, node, ordinal)
            }
        },
    }
}

fn find_inner_body(rows: &Vec<SyntaxRow>, body: usize) -> (result: Option<usize>)
    requires
        body < rows@.len(),
    ensures
        optional_node(result) == inner_body(views(rows@), body as int),
        match result {
            Some(inner) => body <= inner < rows@.len(),
            None => true,
        },
    decreases rows@.len() - body,
{
    proof {
        assert(views(rows@).len() == rows@.len());
    }
    if is_kind(rows, body, "fun_expression") {
        match child_by_field_name(rows, body, "body") {
            Some(inner) => find_inner_body(rows, inner),
            None => None,
        }
    } else {
        Some(body)
    }
}

/// Finds the functions nested in the body of a binding.
pub fn collect_nested_callables_from_binding(
    rows: &Vec<SyntaxRow>,
    file: &SourcePath,
    module: &Vec<String>,
    owner: &SymbolId,
    binding: usize,
) -> (result: Findings)
    requires
        binding < rows@.len(),
    ensures
        result@ == nested_in_binding(
            views(rows@),
            file@,
            texts(module@),
            owner@,
            binding as int,
        ),
    decreases rows@.len() - binding, 1int,
{
    proof {
        assert(views(rows@).len() == rows@.len());
    }
    let body = match child_by_field_name(rows, binding, "body") {
        Some(body) => body,
        None => {
            return Findings::none();
        },
    };
    match find_inner_body(rows, body) {
        None => Findings::none(),
        Some(inner) => {
            let (found, _) = if is_kind(rows, inner, "function_expression") {
                collect_nested_below(rows, file, module, owner, inner, 0)
            } else {
                collect_nested_callables(rows, file, module, owner, inner, 0)
            };
            found
        },
    }
}

} // verus!
