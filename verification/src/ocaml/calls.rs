//! What the calls of an OCaml program reach.
use crate::files::KnownFile;
use crate::lists::views;
use crate::model::{
    symbol_parts, visible_syntax, AnalysisModel, CallSite, CallSyntax, CallTarget, FactModel,
    FileAnalysis, FunctionInfo, FunctionModel, LanguageFact, SiteModel, SymbolId, SymbolModel,
    SyntaxModel, TargetModel,
};
use crate::ocaml::aliases::{
    expand_ocaml_module_alias, expanded, module_aliases, ocaml_module_aliases,
};
use crate::ocaml::bindings::{
    normalize_ocaml_callable_argument, ocaml_module_package_path, packed_module, plain_argument,
    BindingModel, OcamlParameterBinding, OcamlParameterKind,
};
use crate::ocaml::callable::{IndexModel, OcamlFlowIndex};
use crate::ocaml::expansion::{specialize_ocaml_function_values, specialized};
use crate::ocaml::expressions::{
    collect_ocaml_callable_outcomes, find_wrapped, ocaml_value_path, outcomes, value_path,
    wrapped_node,
};
use crate::ocaml::flow::{passed, passed_argument};
use crate::ocaml::functors::{instantiate_ocaml_functors, with_instances};
use crate::ocaml::labels::{call_arguments, ocaml_call_arguments};
use crate::ocaml::parameters::{
    called_binding, called_ocaml_parameter_index, ocaml_parameters, ocaml_return_outcomes,
    parameters_of, return_outcomes,
};
use crate::ocaml::scopes::{local_value, scoped_ocaml_local_value};
use crate::ocaml::specialize::{
    parameter_is_called, CallFlowModel, CalledParameter, OcamlCallFlow,
};
use crate::ocaml::symbols::{local_target, resolve, resolved, target_function};
use crate::ocaml::syntax::{
    child_by_field, child_by_field_name, end_of, fields_are_behind, first_named,
    first_named_child, is_kind, named_are_behind, optional_node, parse_rows, syntax_rows, RowModel,
    SyntaxRow,
};
use crate::rust::calls::has_text;
use crate::text::{copy_texts, same_text, texts};
use vstd::prelude::*;

verus! {

/// Whether a call at a place calls a value that the function has only when it
/// runs: a parameter, or a local value.
pub open spec fn calls_value(facts: Seq<FactModel>, id: SymbolModel, call: SiteModel) -> bool {
    match visible_syntax(call.syntax) {
        SyntaxModel::Path(parts) => called_binding(
            parts,
            parameters_of(facts, id),
            Some(call.span),
        ) is Some || (parts.len() == 1 && local_value(
            facts,
            id,
            parts[0],
            Some(call.span),
        ) is Some),
        _ => false,
    }
}

/// Whether a call at a place calls a value that the function has only when it
/// runs.
pub fn is_value_call(
    facts: &Vec<LanguageFact>,
    id: &SymbolId,
    bindings: &Vec<OcamlParameterBinding>,
    call: &CallSite,
) -> (result: bool)
    requires
        views(bindings@) == parameters_of(views(facts@), id@),
    ensures
        result == calls_value(views(facts@), id@, call@),
{
    match call.syntax.visible() {
        CallSyntax::Path(parts) => {
            proof {
                assert(texts(parts@).len() == parts@.len());
            }
            if called_ocaml_parameter_index(parts, bindings, Some(&call.span)).is_some() {
                return true;
            }
            if parts.len() != 1 {
                return false;
            }
            proof {
                assert(texts(parts@)[0] == parts@[0]@);
            }
            scoped_ocaml_local_value(facts, id, parts[0].as_str(), Some(&call.span)).is_some()
        },
        _ => false,
    }
}

/// What a call reaches by the names in it.
pub open spec fn named_target(index: IndexModel, id: SymbolModel, call: SiteModel) -> TargetModel {
    if calls_value(index.facts, id, call) {
        TargetModel::Unresolved
    } else {
        match call.target {
            TargetModel::Direct(symbol) => match expanded(index.aliases, symbol_parts(symbol)) {
                Some(parts) => match resolved(
                    index.functions,
                    index.known,
                    parts,
                    id,
                    Some(call.span),
                ) {
                    Some(target) => TargetModel::Direct(target),
                    None => call.target,
                },
                None => call.target,
            },
            TargetModel::Unresolved => match visible_syntax(call.syntax) {
                SyntaxModel::Path(parts) => {
                    let path = match expanded(index.aliases, parts) {
                        Some(path) => path,
                        None => parts,
                    };
                    match resolved(index.functions, index.known, path, id, Some(call.span)) {
                        Some(target) => TargetModel::Direct(target),
                        None => call.target,
                    }
                },
                _ => call.target,
            },
            _ => call.target,
        }
    }
}

fn find_named_target(
    index: &OcamlFlowIndex,
    id: &SymbolId,
    bindings: &Vec<OcamlParameterBinding>,
    call: &CallSite,
) -> (result: CallTarget)
    requires
        views(bindings@) == parameters_of(index@.facts, id@),
    ensures
        result@ == named_target(index@, id@, call@),
{
    if is_value_call(index.facts, id, bindings, call) {
        return CallTarget::Unresolved;
    }
    match &call.target {
        CallTarget::Direct(symbol) => {
            if let Some(parts) = expand_ocaml_module_alias(&symbol.owned_parts(), index.aliases) {
                if let Some(target) = resolve(
                    index.functions,
                    index.known,
                    &parts,
                    id,
                    Some(&call.span),
                ) {
                    return CallTarget::Direct(target);
                }
            }
        },
        CallTarget::Unresolved => {
            if let CallSyntax::Path(parts) = call.syntax.visible() {
                let path = match expand_ocaml_module_alias(parts, index.aliases) {
                    Some(path) => path,
                    None => copy_texts(parts),
                };
                if let Some(target) = resolve(
                    index.functions,
                    index.known,
                    &path,
                    id,
                    Some(&call.span),
                ) {
                    return CallTarget::Direct(target);
                }
            }
        },
        _ => {},
    }
    call.target.clone()
}

/// The calls of a function, with what they reach by the names in them.
pub open spec fn named_calls(index: IndexModel, id: SymbolModel, calls: Seq<SiteModel>) -> Seq<
    SiteModel,
> {
    calls.map_values(
        |call: SiteModel| SiteModel { target: named_target(index, id, call), ..call },
    )
}

/// The functions, with what their calls reach by the names in them.
pub open spec fn named_functions(index: IndexModel) -> Seq<FunctionModel> {
    index.functions.map_values(
        |function: FunctionModel|
            FunctionModel {
                calls: named_calls(index, function.id, function.calls),
                ..function
            },
    )
}

fn name_calls(index: &OcamlFlowIndex, function: &FunctionInfo) -> (result: FunctionInfo)
    ensures
        result@ == (FunctionModel {
            calls: named_calls(index@, function@.id, function@.calls),
            ..function@
        }),
{
    let bindings = ocaml_parameters(index.facts, &function.id);
    let ghost wanted = named_calls(index@, function@.id, function@.calls);
    let mut calls: Vec<CallSite> = Vec::new();
    let mut next: usize = 0;
    while next < function.calls.len()
        invariant
            next <= function.calls@.len(),
            calls@.len() == next,
            views(bindings@) == parameters_of(index@.facts, function@.id),
            wanted == named_calls(index@, function@.id, function@.calls),
            forall|k: int| 0 <= k < next ==> (#[trigger] calls@[k])@ == wanted[k],
        decreases function.calls@.len() - next,
    {
        proof {
            assert(function@.calls[next as int] == function.calls@[next as int]@);
        }
        let mut call = function.calls[next].clone();
        call.target = find_named_target(index, &function.id, &bindings, &function.calls[next]);
        calls.push(call);
        next += 1;
    }
    let result = FunctionInfo {
        id: function.id.clone(),
        label: function.label.clone(),
        public: function.public,
        calls,
        span: function.span.clone(),
    };
    proof {
        assert(result@.calls =~= wanted);
    }
    result
}

fn name_all_calls(index: &OcamlFlowIndex) -> (result: Vec<FunctionInfo>)
    ensures
        views(result@) == named_functions(index@),
{
    let ghost wanted = named_functions(index@);
    let mut result: Vec<FunctionInfo> = Vec::new();
    let mut next: usize = 0;
    while next < index.functions.len()
        invariant
            next <= index.functions@.len(),
            result@.len() == next,
            wanted == named_functions(index@),
            forall|k: int| 0 <= k < next ==> (#[trigger] result@[k])@ == wanted[k],
        decreases index.functions@.len() - next,
    {
        proof {
            assert(index@.functions[next as int] == index.functions@[next as int]@);
        }
        result.push(name_calls(index, &index.functions[next]));
        next += 1;
    }
    proof {
        assert(views(result@) =~= wanted);
    }
    result
}

/// A set with one more parameter.
pub open spec fn with_called(
    called: Seq<(SymbolModel, usize)>,
    function: SymbolModel,
    parameter: usize,
) -> Seq<(SymbolModel, usize)> {
    if called.contains((function, parameter)) {
        called
    } else {
        called.push((function, parameter))
    }
}

fn add_called(called: &mut Vec<CalledParameter>, function: &SymbolId, parameter: usize)
    ensures
        views(final(called)@) == with_called(views(old(called)@), function@, parameter),
        final(called)@.len() >= old(called)@.len(),
{
    let ghost before = views(called@);
    if !parameter_is_called(called, function, parameter) {
        called.push(CalledParameter { function: function.clone(), parameter });
        proof {
            assert(views(called@) =~= before.push((function@, parameter)));
        }
    }
}

/// The parameters that the first `count` calls of a function call.
pub open spec fn called_in_calls(
    called: Seq<(SymbolModel, usize)>,
    id: SymbolModel,
    bindings: Seq<BindingModel>,
    calls: Seq<SiteModel>,
    count: int,
) -> Seq<(SymbolModel, usize)>
    decreases count,
{
    if count <= 0 {
        called
    } else {
        let before = called_in_calls(called, id, bindings, calls, count - 1);
        match visible_syntax(calls[count - 1].syntax) {
            SyntaxModel::Path(parts) => match called_binding(
                parts,
                bindings,
                Some(calls[count - 1].span),
            ) {
                Some(parameter) => with_called(before, id, parameter as usize),
                None => before,
            },
            _ => before,
        }
    }
}

/// The parameters that the first `count` functions call.
pub open spec fn called_directly(
    functions: Seq<FunctionModel>,
    facts: Seq<FactModel>,
    count: int,
) -> Seq<(SymbolModel, usize)>
    decreases count,
{
    if count <= 0 {
        Seq::empty()
    } else {
        let function = functions[count - 1];
        called_in_calls(
            called_directly(functions, facts, count - 1),
            function.id,
            parameters_of(facts, function.id),
            function.calls,
            function.calls.len() as int,
        )
    }
}

fn find_called_in_calls(
    called: &mut Vec<CalledParameter>,
    function: &FunctionInfo,
    bindings: &Vec<OcamlParameterBinding>,
)
    ensures
        views(final(called)@) == called_in_calls(
            views(old(called)@),
            function@.id,
            views(bindings@),
            function@.calls,
            function@.calls.len() as int,
        ),
{
    let ghost before = views(called@);
    let mut next: usize = 0;
    proof {
        assert(function@.calls.len() == function.calls@.len());
    }
    while next < function.calls.len()
        invariant
            next <= function.calls@.len(),
            views(called@) == called_in_calls(
                before,
                function@.id,
                views(bindings@),
                function@.calls,
                next as int,
            ),
        decreases function.calls@.len() - next,
    {
        let call = &function.calls[next];
        proof {
            assert(function@.calls[next as int] == call@);
        }
        if let CallSyntax::Path(parts) = call.syntax.visible() {
            if let Some(parameter) = called_ocaml_parameter_index(
                parts,
                bindings,
                Some(&call.span),
            ) {
                add_called(called, &function.id, parameter);
            }
        }
        next += 1;
    }
}

fn find_called_directly(functions: &Vec<FunctionInfo>, facts: &Vec<LanguageFact>) -> (result: Vec<
    CalledParameter,
>)
    ensures
        views(result@) == called_directly(
            views(functions@),
            views(facts@),
            functions@.len() as int,
        ),
{
    let mut result: Vec<CalledParameter> = Vec::new();
    let mut next: usize = 0;
    proof {
        assert(views(result@) =~= Seq::empty());
    }
    while next < functions.len()
        invariant
            next <= functions@.len(),
            views(result@) == called_directly(views(functions@), views(facts@), next as int),
        decreases functions@.len() - next,
    {
        proof {
            assert(views(functions@)[next as int] == functions@[next as int]@);
        }
        let bindings = ocaml_parameters(facts, &functions[next].id);
        find_called_in_calls(&mut result, &functions[next], &bindings);
        next += 1;
    }
    result
}

/// Whether a node has the value of another node in it, and no names of its
/// own.
pub open spec fn is_plain_wrapper(rows: Seq<RowModel>, node: int) -> bool {
    let kind = rows[node].kind;
    kind == "expression_item"@ || kind == "parenthesized_expression"@ || kind
        == "typed_expression"@ || kind == "coercion_expression"@ || kind
        == "local_open_expression"@
}

/// The path of the function that the expression at a node applies.
pub open spec fn applied_path(rows: Seq<RowModel>, node: int) -> Option<Seq<Seq<char>>>
    decreases rows.len() - node,
    when 0 <= node < rows.len()
{
    if is_plain_wrapper(rows, node) {
        proof {
            fields_are_behind(rows, node + 1, end_of(rows, node), "body"@);
            fields_are_behind(rows, node + 1, end_of(rows, node), "expression"@);
            named_are_behind(rows, node + 1, end_of(rows, node));
        }
        match wrapped_node(rows, node) {
            Some(inner) => applied_path(rows, inner),
            None => None,
        }
    } else if rows[node].kind == "application_expression"@ {
        match child_by_field(rows, node, "function"@) {
            Some(function) => value_path(rows, function),
            None => None,
        }
    } else {
        None
    }
}

fn find_applied_path(rows: &Vec<SyntaxRow>, node: usize) -> (result: Option<Vec<String>>)
    requires
        node < rows@.len(),
    ensures
        crate::ocaml::aliases::optional_texts(result) == applied_path(
            views(rows@),
            node as int,
        ),
    decreases rows@.len() - node,
{
    proof {
        assert(views(rows@).len() == rows@.len());
    }
    if is_kind(rows, node, "expression_item") || is_kind(rows, node, "parenthesized_expression")
        || is_kind(rows, node, "typed_expression") || is_kind(rows, node, "coercion_expression")
        || is_kind(rows, node, "local_open_expression") {
        match find_wrapped(rows, node) {
            Some(inner) => find_applied_path(rows, inner),
            None => None,
        }
    } else if is_kind(rows, node, "application_expression") {
        match child_by_field_name(rows, node, "function") {
            Some(function) => ocaml_value_path(rows, function),
            None => None,
        }
    } else {
        None
    }
}

/// The syntax tree of an expression without errors, and the expression in it.
pub open spec fn parsed_expression(expression: Seq<char>) -> Option<(Seq<RowModel>, int)> {
    match syntax_rows(expression, false) {
        None => None,
        Some(rows) => if rows.len() == 0 || rows[0].error {
            None
        } else {
            match first_named(rows, 0) {
                Some(node) => Some((rows, node)),
                None => None,
            }
        },
    }
}

fn parse_expression(expression: &str) -> (result: Option<(Vec<SyntaxRow>, usize)>)
    ensures
        match result {
            Some((rows, node)) => node < rows@.len() && parsed_expression(expression@) == Some(
                (views(rows@), node as int),
            ),
            None => parsed_expression(expression@) is None,
        },
{
    let rows = match parse_rows(expression, false) {
        Some(rows) => rows,
        None => {
            return None;
        },
    };
    proof {
        assert(views(rows@).len() == rows@.len());
    }
    if rows.len() == 0 {
        return None;
    }
    proof {
        assert(views(rows@)[0] == rows@[0]@);
    }
    if rows[0].error {
        return None;
    }
    match first_named_child(&rows, 0) {
        Some(node) => Some((rows, node)),
        None => None,
    }
}

/// The path of the function that an expression applies.
pub open spec fn applied_function(expression: Seq<char>) -> Option<Seq<Seq<char>>> {
    match parsed_expression(expression) {
        Some((rows, node)) => applied_path(rows, node),
        None => None,
    }
}

/// The path of the function that an expression applies.
pub fn ocaml_applied_function_path(expression: &str) -> (result: Option<Vec<String>>)
    ensures
        crate::ocaml::aliases::optional_texts(result) == applied_function(expression@),
{
    match parse_expression(expression) {
        Some((rows, node)) => find_applied_path(&rows, node),
        None => None,
    }
}

/// The function whose result a call calls.
pub open spec fn result_called(index: IndexModel, caller: SymbolModel, call: SiteModel) -> Option<
    SymbolModel,
> {
    match visible_syntax(call.syntax) {
        SyntaxModel::Expression(expression) => match applied_function(expression) {
            Some(parts) => resolved(
                index.functions,
                index.known,
                parts,
                caller,
                Some(call.span),
            ),
            None => None,
        },
        _ => None,
    }
}

/// The functions whose results the first `count` calls of a function call.
pub open spec fn results_called_by(index: IndexModel, function: FunctionModel, count: int) -> Seq<
    SymbolModel,
>
    decreases count,
{
    if count <= 0 {
        Seq::empty()
    } else {
        let before = results_called_by(index, function, count - 1);
        match result_called(index, function.id, function.calls[count - 1]) {
            Some(symbol) => before.push(symbol),
            None => before,
        }
    }
}

/// The functions whose results the first `count` functions call.
pub open spec fn results_called(index: IndexModel, count: int) -> Seq<SymbolModel>
    decreases count,
{
    if count <= 0 {
        Seq::empty()
    } else {
        let function = index.functions[count - 1];
        results_called(index, count - 1) + results_called_by(
            index,
            function,
            function.calls.len() as int,
        )
    }
}

fn find_results_called_by(index: &OcamlFlowIndex, function: &FunctionInfo) -> (result: Vec<SymbolId>)
    ensures
        views(result@) == results_called_by(
            index@,
            function@,
            function@.calls.len() as int,
        ),
{
    let mut result: Vec<SymbolId> = Vec::new();
    let mut next: usize = 0;
    proof {
        assert(views(result@) =~= Seq::empty());
        assert(function@.calls.len() == function.calls@.len());
    }
    while next < function.calls.len()
        invariant
            next <= function.calls@.len(),
            views(result@) == results_called_by(index@, function@, next as int),
        decreases function.calls@.len() - next,
    {
        let call = &function.calls[next];
        proof {
            assert(function@.calls[next as int] == call@);
        }
        if let CallSyntax::Expression(expression) = call.syntax.visible() {
            if let Some(parts) = ocaml_applied_function_path(expression.as_str()) {
                if let Some(symbol) = resolve(
                    index.functions,
                    index.known,
                    &parts,
                    &function.id,
                    Some(&call.span),
                ) {
                    let ghost before = views(result@);
                    let ghost model = symbol@;
                    result.push(symbol);
                    proof {
                        assert(views(result@) =~= before.push(model));
                    }
                }
            }
        }
        next += 1;
    }
    result
}

/// Finds the functions whose results the program calls.
pub fn ocaml_return_called_functions(index: &OcamlFlowIndex) -> (result: Vec<SymbolId>)
    ensures
        views(result@) == results_called(index@, index@.functions.len() as int),
{
    let mut result: Vec<SymbolId> = Vec::new();
    let mut next: usize = 0;
    proof {
        assert(views(result@) =~= Seq::empty());
        assert(index@.functions.len() == index.functions@.len());
    }
    while next < index.functions.len()
        invariant
            next <= index.functions@.len(),
            views(result@) == results_called(index@, next as int),
        decreases index.functions@.len() - next,
    {
        let ghost before = views(result@);
        proof {
            assert(index@.functions[next as int] == index.functions@[next as int]@);
        }
        let mut more = find_results_called_by(index, &index.functions[next]);
        let ghost added = views(more@);
        result.append(&mut more);
        proof {
            assert(views(result@) =~= before + added);
        }
        next += 1;
    }
    result
}

/// The first binding of a name, from `index` on.
pub open spec fn name_place(bindings: Seq<BindingModel>, name: Seq<char>, index: int) -> Option<int>
    decreases bindings.len() - index,
{
    if index < 0 || index >= bindings.len() {
        None
    } else if bindings[index].name == name {
        Some(index)
    } else {
        name_place(bindings, name, index + 1)
    }
}

fn find_name_place(bindings: &Vec<OcamlParameterBinding>, name: &str) -> (result: Option<usize>)
    ensures
        optional_node(result) == name_place(views(bindings@), name@, 0),
{
    let mut next: usize = 0;
    while next < bindings.len()
        invariant
            next <= bindings@.len(),
            name_place(views(bindings@), name@, next as int) == name_place(
                views(bindings@),
                name@,
                0,
            ),
        decreases bindings@.len() - next,
    {
        proof {
            assert(views(bindings@)[next as int] == bindings@[next as int]@);
        }
        if same_text(bindings[next].name.as_str(), name) {
            return Some(next);
        }
        next += 1;
    }
    None
}

/// A set with the parameters that the first `count` results of a function
/// are.
pub open spec fn with_returned(
    called: Seq<(SymbolModel, usize)>,
    id: SymbolModel,
    bindings: Seq<BindingModel>,
    results: Seq<Seq<char>>,
    count: int,
) -> Seq<(SymbolModel, usize)>
    decreases count,
{
    if count <= 0 {
        called
    } else {
        let before = with_returned(called, id, bindings, results, count - 1);
        match name_place(bindings, results[count - 1], 0) {
            Some(parameter) => with_called(before, id, parameter as usize),
            None => before,
        }
    }
}

/// A set with the parameters that the first `count` functions give back, of
/// those whose results are called.
pub open spec fn with_results(
    called: Seq<(SymbolModel, usize)>,
    functions: Seq<FunctionModel>,
    facts: Seq<FactModel>,
    result_of: Seq<SymbolModel>,
    count: int,
) -> Seq<(SymbolModel, usize)>
    decreases count,
{
    if count <= 0 {
        called
    } else {
        let before = with_results(called, functions, facts, result_of, count - 1);
        let id = functions[count - 1].id;
        if result_of.contains(id) {
            let results = return_outcomes(facts, id);
            with_returned(before, id, parameters_of(facts, id), results, results.len() as int)
        } else {
            before
        }
    }
}

fn add_returned(
    called: &mut Vec<CalledParameter>,
    id: &SymbolId,
    bindings: &Vec<OcamlParameterBinding>,
    results: &Vec<String>,
)
    ensures
        views(final(called)@) == with_returned(
            views(old(called)@),
            id@,
            views(bindings@),
            texts(results@),
            results@.len() as int,
        ),
{
    let ghost before = views(called@);
    let mut next: usize = 0;
    while next < results.len()
        invariant
            next <= results@.len(),
            views(called@) == with_returned(
                before,
                id@,
                views(bindings@),
                texts(results@),
                next as int,
            ),
        decreases results@.len() - next,
    {
        proof {
            assert(texts(results@)[next as int] == results@[next as int]@);
        }
        if let Some(parameter) = find_name_place(bindings, results[next].as_str()) {
            add_called(called, id, parameter);
        }
        next += 1;
    }
}

fn lists_symbol(symbols: &Vec<SymbolId>, id: &SymbolId) -> (result: bool)
    ensures
        result == views(symbols@).contains(id@),
{
    let ghost model = views(symbols@);
    let mut next: usize = 0;
    while next < symbols.len()
        invariant
            next <= symbols@.len(),
            model == views(symbols@),
            forall|k: int| 0 <= k < next ==> #[trigger] model[k] != id@,
        decreases symbols@.len() - next,
    {
        proof {
            assert(model[next as int] == symbols@[next as int]@);
        }
        if symbols[next].same(id) {
            return true;
        }
        next += 1;
    }
    false
}

fn add_results(
    called: &mut Vec<CalledParameter>,
    functions: &Vec<FunctionInfo>,
    facts: &Vec<LanguageFact>,
    result_of: &Vec<SymbolId>,
)
    ensures
        views(final(called)@) == with_results(
            views(old(called)@),
            views(functions@),
            views(facts@),
            views(result_of@),
            functions@.len() as int,
        ),
{
    let ghost before = views(called@);
    let mut next: usize = 0;
    while next < functions.len()
        invariant
            next <= functions@.len(),
            views(called@) == with_results(
                before,
                views(functions@),
                views(facts@),
                views(result_of@),
                next as int,
            ),
        decreases functions@.len() - next,
    {
        proof {
            assert(views(functions@)[next as int] == functions@[next as int]@);
        }
        let id = &functions[next].id;
        if lists_symbol(result_of, id) {
            let bindings = ocaml_parameters(facts, id);
            let results = ocaml_return_outcomes(facts, id);
            proof {
                assert(texts(results@).len() == results@.len());
            }
            add_returned(called, id, &bindings, &results);
        }
        next += 1;
    }
}

/// The calls of functions of the program among the first `count` calls of a
/// function.
pub open spec fn flows_of_function(
    functions: Seq<FunctionModel>,
    function: FunctionModel,
    count: int,
) -> Seq<CallFlowModel>
    decreases count,
{
    if count <= 0 {
        Seq::empty()
    } else {
        let before = flows_of_function(functions, function, count - 1);
        let call = function.calls[count - 1];
        match target_function(functions, call.target) {
            Some(target) => before.push(
                CallFlowModel {
                    caller: function.id,
                    target,
                    arguments: call_arguments(call),
                    span: call.span,
                },
            ),
            None => before,
        }
    }
}

/// The calls of functions of the program in the first `count` functions.
pub open spec fn flows_of(functions: Seq<FunctionModel>, count: int) -> Seq<CallFlowModel>
    decreases count,
{
    if count <= 0 {
        Seq::empty()
    } else {
        flows_of(functions, count - 1) + flows_of_function(
            functions,
            functions[count - 1],
            functions[count - 1].calls.len() as int,
        )
    }
}

fn find_flows_of_function(functions: &Vec<FunctionInfo>, function: &FunctionInfo) -> (result: Vec<
    OcamlCallFlow,
>)
    ensures
        views(result@) == flows_of_function(
            views(functions@),
            function@,
            function@.calls.len() as int,
        ),
{
    let mut result: Vec<OcamlCallFlow> = Vec::new();
    let mut next: usize = 0;
    proof {
        assert(views(result@) =~= Seq::empty());
        assert(function@.calls.len() == function.calls@.len());
    }
    while next < function.calls.len()
        invariant
            next <= function.calls@.len(),
            views(result@) == flows_of_function(views(functions@), function@, next as int),
        decreases function.calls@.len() - next,
    {
        let call = &function.calls[next];
        proof {
            assert(function@.calls[next as int] == call@);
        }
        if let Some(target) = local_target(functions, &call.target) {
            let ghost before = views(result@);
            let flow = OcamlCallFlow {
                caller: function.id.clone(),
                target,
                arguments: ocaml_call_arguments(call),
                span: call.span.clone(),
            };
            let ghost model = flow@;
            result.push(flow);
            proof {
                assert(views(result@) =~= before.push(model));
            }
        }
        next += 1;
    }
    result
}

fn find_flows(functions: &Vec<FunctionInfo>) -> (result: Vec<OcamlCallFlow>)
    ensures
        views(result@) == flows_of(views(functions@), functions@.len() as int),
{
    let mut result: Vec<OcamlCallFlow> = Vec::new();
    let mut next: usize = 0;
    proof {
        assert(views(result@) =~= Seq::empty());
    }
    while next < functions.len()
        invariant
            next <= functions@.len(),
            views(result@) == flows_of(views(functions@), next as int),
        decreases functions@.len() - next,
    {
        let ghost before = views(result@);
        proof {
            assert(views(functions@)[next as int] == functions@[next as int]@);
        }
        let mut more = find_flows_of_function(functions, &functions[next]);
        let ghost added = views(more@);
        result.append(&mut more);
        proof {
            assert(views(result@) =~= before + added);
        }
        next += 1;
    }
    result
}

/// The names of the values that an expression can give.
pub open spec fn outcome_names(expression: Seq<char>) -> Seq<Seq<char>> {
    match parsed_expression(plain_argument(expression)) {
        Some((rows, node)) => outcomes(rows, node, Seq::empty()),
        None => Seq::empty(),
    }
}

/// The names of the values that an expression can give.
pub fn ocaml_callable_outcome_names(expression: &str) -> (result: Vec<String>)
    ensures
        texts(result@) == outcome_names(expression@),
{
    let plain = normalize_ocaml_callable_argument(expression);
    let mut names: Vec<String> = Vec::new();
    proof {
        assert(texts(names@) =~= Seq::empty());
    }
    if let Some((rows, node)) = parse_expression(plain.as_str()) {
        collect_ocaml_callable_outcomes(&rows, node, &mut names);
    }
    names
}

/// Whether an argument hands on what a binding of the caller stands for.
pub open spec fn hands_on(argument: Seq<char>, binding: BindingModel) -> bool {
    outcome_names(argument).contains(binding.name) || (binding.kind == OcamlParameterKind::Module
        && packed_module(argument) == Some(seq![binding.name]))
}

/// A set with those of the first `count` bindings of a caller that an argument
/// hands on.
pub open spec fn with_handed_on(
    called: Seq<(SymbolModel, usize)>,
    caller: SymbolModel,
    bindings: Seq<BindingModel>,
    argument: Seq<char>,
    count: int,
) -> Seq<(SymbolModel, usize)>
    decreases count,
{
    if count <= 0 {
        called
    } else {
        let before = with_handed_on(called, caller, bindings, argument, count - 1);
        if hands_on(argument, bindings[count - 1]) {
            with_called(before, caller, (count - 1) as usize)
        } else {
            before
        }
    }
}

fn add_handed_on(
    called: &mut Vec<CalledParameter>,
    caller: &SymbolId,
    bindings: &Vec<OcamlParameterBinding>,
    argument: &str,
)
    ensures
        views(final(called)@) == with_handed_on(
            views(old(called)@),
            caller@,
            views(bindings@),
            argument@,
            bindings@.len() as int,
        ),
        final(called)@.len() >= old(called)@.len(),
{
    let names = ocaml_callable_outcome_names(argument);
    let module = ocaml_module_package_path(argument);
    let ghost before = views(called@);
    let ghost size = called@.len();
    let mut next: usize = 0;
    while next < bindings.len()
        invariant
            next <= bindings@.len(),
            texts(names@) == outcome_names(argument@),
            match module {
                Some(parts) => packed_module(argument@) == Some(texts(parts@)),
                None => packed_module(argument@) is None,
            },
            views(called@) == with_handed_on(
                before,
                caller@,
                views(bindings@),
                argument@,
                next as int,
            ),
            called@.len() >= size,
        decreases bindings@.len() - next,
    {
        let binding = &bindings[next];
        proof {
            assert(views(bindings@)[next as int] == binding@);
        }
        let passes_module = match binding.kind {
            OcamlParameterKind::Module => match &module {
                Some(parts) => {
                    proof {
                        assert(texts(parts@).len() == parts@.len());
                        if parts@.len() == 1 {
                            assert(texts(parts@)[0] == parts@[0]@);
                            if parts@[0]@ == binding.name@ {
                                assert(texts(parts@) =~= seq![binding.name@]);
                            }
                        }
                    }
                    parts.len() == 1 && same_text(parts[0].as_str(), binding.name.as_str())
                },
                None => false,
            },
            OcamlParameterKind::Value => false,
        };
        if has_text(&names, binding.name.as_str()) || passes_module {
            add_called(called, caller, next);
        }
        next += 1;
    }
}

/// A set with what a call hands on to the first `count` parameters of its
/// target that are called.
pub open spec fn with_flow(
    called: Seq<(SymbolModel, usize)>,
    flow: CallFlowModel,
    caller: Seq<BindingModel>,
    target: Seq<BindingModel>,
    count: int,
) -> Seq<(SymbolModel, usize)>
    decreases count,
{
    if count <= 0 {
        called
    } else {
        let before = with_flow(called, flow, caller, target, count - 1);
        if before.contains((flow.target, (count - 1) as usize)) {
            match passed(flow.arguments, target[count - 1]) {
                Some(argument) => with_handed_on(
                    before,
                    flow.caller,
                    caller,
                    argument,
                    caller.len() as int,
                ),
                None => before,
            }
        } else {
            before
        }
    }
}

fn add_flow(
    called: &mut Vec<CalledParameter>,
    flow: &OcamlCallFlow,
    caller: &Vec<OcamlParameterBinding>,
    target: &Vec<OcamlParameterBinding>,
)
    ensures
        views(final(called)@) == with_flow(
            views(old(called)@),
            flow@,
            views(caller@),
            views(target@),
            target@.len() as int,
        ),
        final(called)@.len() >= old(called)@.len(),
{
    let ghost before = views(called@);
    let ghost size = called@.len();
    let mut next: usize = 0;
    proof {
        assert(views(caller@).len() == caller@.len());
    }
    while next < target.len()
        invariant
            next <= target@.len(),
            views(caller@).len() == caller@.len(),
            views(called@) == with_flow(
                before,
                flow@,
                views(caller@),
                views(target@),
                next as int,
            ),
            called@.len() >= size,
        decreases target@.len() - next,
    {
        proof {
            assert(views(target@)[next as int] == target@[next as int]@);
        }
        if parameter_is_called(called, &flow.target, next) {
            if let Some(argument) = passed_argument(&flow.arguments, &target[next]) {
                add_handed_on(called, &flow.caller, caller, argument.as_str());
            }
        }
        next += 1;
    }
}

/// A set with what the first `count` calls hand on.
pub open spec fn with_flows(
    called: Seq<(SymbolModel, usize)>,
    facts: Seq<FactModel>,
    flows: Seq<CallFlowModel>,
    count: int,
) -> Seq<(SymbolModel, usize)>
    decreases count,
{
    if count <= 0 {
        called
    } else {
        let target = parameters_of(facts, flows[count - 1].target);
        with_flow(
            with_flows(called, facts, flows, count - 1),
            flows[count - 1],
            parameters_of(facts, flows[count - 1].caller),
            target,
            target.len() as int,
        )
    }
}

fn add_flows(
    called: &mut Vec<CalledParameter>,
    facts: &Vec<LanguageFact>,
    flows: &Vec<OcamlCallFlow>,
)
    ensures
        views(final(called)@) == with_flows(
            views(old(called)@),
            views(facts@),
            views(flows@),
            flows@.len() as int,
        ),
        final(called)@.len() >= old(called)@.len(),
{
    let ghost before = views(called@);
    let ghost size = called@.len();
    let mut next: usize = 0;
    while next < flows.len()
        invariant
            next <= flows@.len(),
            views(called@) == with_flows(before, views(facts@), views(flows@), next as int),
            called@.len() >= size,
        decreases flows@.len() - next,
    {
        proof {
            assert(views(flows@)[next as int] == flows@[next as int]@);
        }
        let caller = ocaml_parameters(facts, &flows[next].caller);
        let target = ocaml_parameters(facts, &flows[next].target);
        proof {
            assert(views(target@).len() == target@.len());
        }
        add_flow(called, &flows[next], &caller, &target);
        next += 1;
    }
}

/// A set after `count` rounds over all calls.
pub open spec fn rounds(
    called: Seq<(SymbolModel, usize)>,
    facts: Seq<FactModel>,
    flows: Seq<CallFlowModel>,
    count: nat,
) -> Seq<(SymbolModel, usize)>
    decreases count,
{
    if count == 0 {
        called
    } else {
        with_flows(
            rounds(called, facts, flows, (count - 1) as nat),
            facts,
            flows,
            flows.len() as int,
        )
    }
}

/// Whether the round after `count` rounds is the first that adds nothing.
pub open spec fn settles_after(
    called: Seq<(SymbolModel, usize)>,
    facts: Seq<FactModel>,
    flows: Seq<CallFlowModel>,
    count: nat,
) -> bool {
    &&& rounds(called, facts, flows, count + 1).len() == rounds(called, facts, flows, count).len()
    &&& forall|earlier: nat|
        earlier < count ==> (#[trigger] rounds(called, facts, flows, earlier)).len() != rounds(
            called,
            facts,
            flows,
            earlier + 1,
        ).len()
}

/// The set after the first round that adds nothing.
pub open spec fn settled(
    called: Seq<(SymbolModel, usize)>,
    facts: Seq<FactModel>,
    flows: Seq<CallFlowModel>,
) -> Seq<(SymbolModel, usize)> {
    rounds(
        called,
        facts,
        flows,
        1 + choose|count: nat| #[trigger] settles_after(called, facts, flows, count),
    )
}

/// Rounds settle in one way.
pub proof fn rounds_settle_once(
    called: Seq<(SymbolModel, usize)>,
    facts: Seq<FactModel>,
    flows: Seq<CallFlowModel>,
    count: nat,
)
    requires
        settles_after(called, facts, flows, count),
    ensures
        settled(called, facts, flows) == rounds(called, facts, flows, count + 1),
{
    let chosen = choose|count: nat| #[trigger] settles_after(called, facts, flows, count);
    assert(settles_after(called, facts, flows, chosen));
    if chosen < count {
        assert(rounds(called, facts, flows, chosen).len() == rounds(
            called,
            facts,
            flows,
            chosen + 1,
        ).len());
    }
    if count < chosen {
        assert(rounds(called, facts, flows, count).len() == rounds(
            called,
            facts,
            flows,
            count + 1,
        ).len());
    }
}

fn settle_called(
    called: &mut Vec<CalledParameter>,
    facts: &Vec<LanguageFact>,
    flows: &Vec<OcamlCallFlow>,
)
    ensures
        views(final(called)@) == settled(views(old(called)@), views(facts@), views(flows@)),
{
    let ghost start = views(called@);
    let ghost told = views(facts@);
    let ghost model = views(flows@);
    let ghost mut count: nat = 0;
    proof {
        assert(model.len() == flows@.len());
    }
    loop
        invariant
            start == views(old(called)@),
            told == views(facts@),
            model == views(flows@),
            model.len() == flows@.len(),
            views(called@) == rounds(start, told, model, count),
            forall|earlier: nat|
                earlier < count ==> (#[trigger] rounds(start, told, model, earlier)).len()
                    != rounds(start, told, model, earlier + 1).len(),
        decreases usize::MAX - called@.len(),
    {
        let size: usize = called.len();
        proof {
            assert(rounds(start, told, model, count).len() == size);
        }
        add_flows(called, facts, flows);
        let now: usize = called.len();
        proof {
            assert(views(called@) == rounds(start, told, model, count + 1));
            assert(views(called@).len() == now);
        }
        if now == size {
            proof {
                assert(settles_after(start, told, model, count));
                rounds_settle_once(start, told, model, count);
            }
            return ;
        }
        proof {
            count = count + 1;
        }
    }
}

/// What is known of a program once the names in its calls are resolved.
pub open spec fn named_index(index: IndexModel) -> IndexModel {
    IndexModel { functions: named_functions(index), ..index }
}

/// The parameters that are called, by their functions or by those that they
/// are handed on to.
pub open spec fn called_parameters(index: IndexModel) -> Seq<(SymbolModel, usize)> {
    let functions = index.functions;
    settled(
        with_results(
            called_directly(functions, index.facts, functions.len() as int),
            functions,
            index.facts,
            results_called(index, functions.len() as int),
            functions.len() as int,
        ),
        index.facts,
        flows_of(functions, functions.len() as int),
    )
}

/// What is known of a program with its functors applied.
pub open spec fn applied_index(
    functions: Seq<FunctionModel>,
    facts: Seq<FactModel>,
    known: Seq<(Seq<char>, Seq<char>)>,
) -> IndexModel {
    let grown = with_instances((functions, facts), facts.len() as int);
    IndexModel {
        functions: grown.0,
        known,
        facts: grown.1,
        aliases: module_aliases(grown.0, grown.1, grown.1.len() as int),
    }
}

/// The functions and facts of a program with its functors applied, the names
/// in its calls resolved, and its functions specialized for the callable
/// values that they are called with.
pub open spec fn resolved_values(
    functions: Seq<FunctionModel>,
    facts: Seq<FactModel>,
    known: Seq<(Seq<char>, Seq<char>)>,
) -> (Seq<FunctionModel>, Seq<FactModel>) {
    let index = named_index(applied_index(functions, facts, known));
    specialized(
        index,
        called_parameters(index),
        flows_of(index.functions, index.functions.len() as int),
    )
}

/// Applies the functors of a program, resolves the names in its calls, and
/// specializes its functions for the callable values that they are called
/// with.
pub fn resolve_ocaml_function_values(analysis: &mut FileAnalysis, known: &Vec<KnownFile>)
    ensures
        ({
            let values = resolved_values(
                old(analysis)@.functions,
                old(analysis)@.facts,
                views(known@),
            );
            final(analysis)@ == (AnalysisModel {
                functions: values.0,
                facts: values.1,
                ..old(analysis)@
            })
        }),
{
    let ghost start = analysis@;
    instantiate_ocaml_functors(analysis);
    let aliases = ocaml_module_aliases(&analysis.functions, &analysis.facts);
    let ghost whole = applied_index(start.functions, start.facts, views(known@));
    proof {
        assert(views(analysis.functions@) =~= analysis@.functions);
        assert(views(analysis.facts@) =~= analysis@.facts);
        assert(views(analysis.facts@).len() == analysis.facts@.len());
    }
    let index = OcamlFlowIndex {
        functions: &analysis.functions,
        known,
        facts: &analysis.facts,
        aliases: &aliases,
    };
    proof {
        assert(index@ == whole);
    }
    let functions = name_all_calls(&index);
    let named = OcamlFlowIndex {
        functions: &functions,
        known,
        facts: &analysis.facts,
        aliases: &aliases,
    };
    proof {
        assert(named@ == named_index(whole));
        assert(views(functions@).len() == functions@.len());
    }
    let mut called = find_called_directly(&functions, &analysis.facts);
    let result_of = ocaml_return_called_functions(&named);
    add_results(&mut called, &functions, &analysis.facts, &result_of);
    let flows = find_flows(&functions);
    settle_called(&mut called, &analysis.facts, &flows);
    let (specialized_functions, specialized_facts) = specialize_ocaml_function_values(
        &named,
        &called,
        &flows,
    );
    analysis.functions = specialized_functions;
    analysis.facts = specialized_facts;
    proof {
        assert(analysis@.functions =~= views(analysis.functions@));
        assert(analysis@.facts =~= views(analysis.facts@));
    }
}

} // verus!
