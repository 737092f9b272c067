//! What is noted of an OCaml function: each of its parameters, and each name
//! that it can return.
use crate::lists::{joint_items, pushed_items};
use crate::model::{FactModel, SpanModel, SymbolModel};
use crate::ocaml::declarations::function_facts;
use crate::ocaml::expressions::outcomes;
use crate::ocaml::extract::{
    default_label, local_values, parameter_facts, refinements_in, return_facts,
};
use crate::ocaml::syntax::{span_of, RowModel};
use vstd::prelude::*;

verus! {

proof fn returned_names_are_noted(
    id: SymbolModel,
    names: Seq<Seq<char>>,
    span: SpanModel,
    count: int,
    at: int,
) -> (fact: FactModel)
    requires
        0 <= at < count <= names.len(),
    ensures
        return_facts(id, names, span, count).contains(fact),
        fact.subject == id,
        fact.kind == "callable-return"@,
        fact.value == names[at],
    decreases count,
{
    let before = return_facts(id, names, span, count - 1);
    let last = return_facts(id, names, span, count).last();
    if at < count - 1 {
        let fact = returned_names_are_noted(id, names, span, count - 1, at);
        pushed_items(before, last, fact);
        fact
    } else {
        pushed_items(before, last, last);
        last
    }
}

proof fn parameters_are_noted(
    rows: Seq<RowModel>,
    file: Seq<char>,
    id: SymbolModel,
    parameters: Seq<int>,
    count: int,
    at: int,
) -> (fact: FactModel)
    requires
        0 <= at < count <= parameters.len(),
        rows[parameters[at]].kind != "function_expression"@,
    ensures
        parameter_facts(rows, file, id, parameters, count).contains(fact),
        fact.subject == id,
        fact.kind == "parameter"@,
        fact.key == default_label(rows, parameters[at]),
        fact.span == span_of(file, rows[parameters[at]]),
    decreases count,
{
    let before = parameter_facts(rows, file, id, parameters, count - 1);
    let all = parameter_facts(rows, file, id, parameters, count);
    if at < count - 1 {
        let fact = parameters_are_noted(rows, file, id, parameters, count - 1, at);
        if rows[parameters[count - 1]].kind != "function_expression"@ {
            pushed_items(before, all.last(), fact);
        }
        fact
    } else {
        pushed_items(before, all.last(), all.last());
        all.last()
    }
}

proof fn facts_of_functions(
    rows: Seq<RowModel>,
    file: Seq<char>,
    id: SymbolModel,
    parameters: Seq<int>,
    body: int,
    fact: FactModel,
)
    ensures
        ({
            let names = outcomes(rows, body, Seq::empty());
            function_facts(rows, file, id, parameters, body).contains(fact) == (parameter_facts(
                rows,
                file,
                id,
                parameters,
                parameters.len() as int,
            ).contains(fact) || return_facts(
                id,
                names,
                span_of(file, rows[body]),
                names.len() as int,
            ).contains(fact) || local_values(rows, file, id, body).contains(fact)
                || refinements_in(rows, file, id, body).contains(fact))
        }),
{
    let names = outcomes(rows, body, Seq::empty());
    let first = parameter_facts(rows, file, id, parameters, parameters.len() as int);
    let second = return_facts(id, names, span_of(file, rows[body]), names.len() as int);
    let third = local_values(rows, file, id, body);
    let fourth = refinements_in(rows, file, id, body);
    joint_items(first, second, fact);
    joint_items(first + second, third, fact);
    joint_items(first + second + third, fourth, fact);
}

/// Each name that the body of a function can give is noted as one that the
/// function can return.
pub proof fn results_are_noted(
    rows: Seq<RowModel>,
    file: Seq<char>,
    id: SymbolModel,
    parameters: Seq<int>,
    body: int,
    name: Seq<char>,
) -> (fact: FactModel)
    requires
        outcomes(rows, body, Seq::empty()).contains(name),
    ensures
        function_facts(rows, file, id, parameters, body).contains(fact),
        fact.subject == id,
        fact.kind == "callable-return"@,
        fact.value == name,
{
    let names = outcomes(rows, body, Seq::empty());
    let at = choose|at: int| 0 <= at < names.len() && names[at] == name;
    let fact = returned_names_are_noted(
        id,
        names,
        span_of(file, rows[body]),
        names.len() as int,
        at,
    );
    facts_of_functions(rows, file, id, parameters, body, fact);
    fact
}

/// Each parameter of a function is noted, as it is shown and where it stands.
pub proof fn all_parameters_are_noted(
    rows: Seq<RowModel>,
    file: Seq<char>,
    id: SymbolModel,
    parameters: Seq<int>,
    body: int,
    at: int,
) -> (fact: FactModel)
    requires
        0 <= at < parameters.len(),
        rows[parameters[at]].kind != "function_expression"@,
    ensures
        function_facts(rows, file, id, parameters, body).contains(fact),
        fact.subject == id,
        fact.kind == "parameter"@,
        fact.key == default_label(rows, parameters[at]),
        fact.span == span_of(file, rows[parameters[at]]),
{
    let fact = parameters_are_noted(rows, file, id, parameters, parameters.len() as int, at);
    facts_of_functions(rows, file, id, parameters, body, fact);
    fact
}

} // verus!
