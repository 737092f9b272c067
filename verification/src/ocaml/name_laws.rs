//! What a name of an OCaml program means where it stands: a parameter, a local
//! value, or the one function that it can name.
use crate::lists::pushed_items;
use crate::model::{FactModel, FunctionModel, SiteModel, SpanModel, SymbolModel, SyntaxModel};
use crate::ocaml::bindings::{BindingModel, OcamlParameterKind};
use crate::ocaml::callable::{FlowModel, IndexModel, PlaceModel};
use crate::ocaml::parameters::{called_binding, called_from, parameters_of, return_outcomes};
use crate::ocaml::scopes::{facts_on, gives_value, local_value, speaks_of, value_place};
use crate::ocaml::specialize::{call_context, call_outcome, specialized_id};
use crate::ocaml::symbols::{
    earlier, function_at, named_functions, path_names_function, resolved, start_of,
};
use crate::ocaml::value_laws::{is_candidate, values_lead_to_their_functions};
use crate::spans::contains_span;
use vstd::prelude::*;

verus! {

/// Whether a path that a caller writes can name a function: by its name alone in
/// the caller's own module, or by the last of its modules and its name.
pub open spec fn can_name(
    parts: Seq<Seq<char>>,
    caller: SymbolModel,
    function: FunctionModel,
) -> bool {
    &&& parts.len() > 0
    &&& function.id.container is None
    &&& crate::ocaml::labels::source_name(function.id.name) == parts[parts.len() - 1]
    &&& if parts.len() == 1 {
        function.id.module == caller.module
    } else {
        function.id.module.len() >= parts.len() - 1 && forall|at: int|
            0 <= at < parts.len() - 1 ==> (#[trigger] parts[at])
                == function.id.module[function.id.module.len() - (parts.len() - 1) + at]
    }
}

proof fn names_are_told(parts: Seq<Seq<char>>, caller: SymbolModel, function: FunctionModel)
    ensures
        path_names_function(function, parts, caller) == can_name(parts, caller, function),
{
    let module = function.id.module;
    if parts.len() > 1 {
        let front = parts.take(parts.len() - 1);
        if module.len() >= front.len() {
            let end = module.subrange(module.len() - front.len(), module.len() as int);
            if can_name(parts, caller, function) {
                assert(end =~= front);
            }
            if path_names_function(function, parts, caller) {
                assert forall|at: int| 0 <= at < parts.len() - 1 implies (#[trigger] parts[at])
                    == module[module.len() - (parts.len() - 1) + at] by {
                    assert(front[at] == parts[at]);
                    assert(end[at] == module[module.len() - front.len() + at]);
                }
            }
        }
    }
}

proof fn lone_names_are_listed(
    functions: Seq<FunctionModel>,
    parts: Seq<Seq<char>>,
    caller: SymbolModel,
    count: int,
    place: int,
)
    requires
        0 <= count <= functions.len(),
        0 <= place < functions.len(),
        can_name(parts, caller, functions[place]),
        forall|at: int|
            0 <= at < functions.len() && can_name(parts, caller, #[trigger] functions[at]) ==> at
                == place,
    ensures
        named_functions(functions, parts, caller, count) == (if place < count {
            seq![place]
        } else {
            Seq::empty()
        }),
    decreases count,
{
    if count > 0 {
        lone_names_are_listed(functions, parts, caller, count - 1, place);
        names_are_told(parts, caller, functions[count - 1]);
        assert(Seq::<int>::empty().push(place) =~= seq![place]);
    }
}

/// A path that can name one function only means that function, wherever it
/// stands.
pub proof fn lone_paths_are_meant(
    functions: Seq<FunctionModel>,
    known: Seq<(Seq<char>, Seq<char>)>,
    parts: Seq<Seq<char>>,
    caller: SymbolModel,
    position: Option<SpanModel>,
    place: int,
)
    requires
        0 <= place < functions.len(),
        can_name(parts, caller, functions[place]),
        forall|at: int|
            0 <= at < functions.len() && can_name(parts, caller, #[trigger] functions[at]) ==> at
                == place,
    ensures
        resolved(functions, known, parts, caller, position) == Some(functions[place].id),
{
    lone_names_are_listed(functions, parts, caller, functions.len() as int, place);
}

proof fn nothing_is_listed(
    functions: Seq<FunctionModel>,
    parts: Seq<Seq<char>>,
    caller: SymbolModel,
    count: int,
)
    requires
        0 <= count <= functions.len(),
        forall|at: int|
            0 <= at < functions.len() ==> !can_name(parts, caller, #[trigger] functions[at]),
    ensures
        named_functions(functions, parts, caller, count).len() == 0,
    decreases count,
{
    if count > 0 {
        nothing_is_listed(functions, parts, caller, count - 1);
        names_are_told(parts, caller, functions[count - 1]);
    }
}

/// A path that can name no function means none, if it is looked for without a
/// place.
pub proof fn unknown_paths_mean_nothing(
    functions: Seq<FunctionModel>,
    known: Seq<(Seq<char>, Seq<char>)>,
    parts: Seq<Seq<char>>,
    caller: SymbolModel,
)
    requires
        forall|at: int|
            0 <= at < functions.len() ==> !can_name(parts, caller, #[trigger] functions[at]),
    ensures
        resolved(functions, known, parts, caller, None) is None,
{
    nothing_is_listed(functions, parts, caller, functions.len() as int);
}

/// Whether a fact gives a local name a value that holds at a place.
pub open spec fn binds_there(
    fact: FactModel,
    owner: SymbolModel,
    name: Seq<char>,
    place: SpanModel,
) -> bool {
    &&& fact.kind == "local-value"@
    &&& fact.subject == owner
    &&& fact.key == name
    &&& contains_span(fact.span, place)
}

proof fn bound_values_are_found_to(
    facts: Seq<FactModel>,
    owner: SymbolModel,
    name: Seq<char>,
    place: SpanModel,
    count: int,
)
    requires
        0 <= count <= facts.len(),
    ensures
        match value_place(facts, owner, name, Some(place), count) {
            Some(found) => 0 <= found < count && binds_there(facts[found], owner, name, place)
                && forall|other: int|
                0 <= other < count && binds_there(#[trigger] facts[other], owner, name, place)
                    ==> !earlier(start_of(facts[found].span), start_of(facts[other].span)),
            None => forall|other: int|
                0 <= other < count ==> !binds_there(#[trigger] facts[other], owner, name, place),
        },
    decreases count,
{
    if count > 0 {
        bound_values_are_found_to(facts, owner, name, place, count - 1);
        assert(gives_value(facts[count - 1], owner, name, Some(place)) == binds_there(
            facts[count - 1],
            owner,
            name,
            place,
        ));
    }
}

/// A local name means the value that was bound last of those that hold where it
/// stands; it means none only where none holds.
pub proof fn innermost_values_are_meant(
    facts: Seq<FactModel>,
    owner: SymbolModel,
    name: Seq<char>,
    place: SpanModel,
    other: int,
)
    requires
        0 <= other < facts.len(),
        binds_there(facts[other], owner, name, place),
    ensures
        local_value(facts, owner, name, Some(place)) is Some,
        binds_there(local_value(facts, owner, name, Some(place))->0, owner, name, place),
        !earlier(
            start_of(local_value(facts, owner, name, Some(place))->0.span),
            start_of(facts[other].span),
        ),
{
    bound_values_are_found_to(facts, owner, name, place, facts.len() as int);
}

proof fn facts_are_kept(
    facts: Seq<FactModel>,
    kind: Seq<char>,
    subject: SymbolModel,
    count: int,
    fact: FactModel,
)
    requires
        0 <= count <= facts.len(),
    ensures
        facts_on(facts, kind, subject, count).contains(fact) == (facts.take(count).contains(fact)
            && speaks_of(fact, kind, subject)),
    decreases count,
{
    if count > 0 {
        facts_are_kept(facts, kind, subject, count - 1, fact);
        let last = facts[count - 1];
        let shorter = facts.take(count - 1);
        assert(facts.take(count) =~= shorter.push(last));
        pushed_items(shorter, last, fact);
        pushed_items(facts_on(facts, kind, subject, count - 1), last, fact);
    }
}

/// What a function can return is each expression that a fact on it says that it
/// can return.
pub proof fn results_are_those_of_the_facts(
    facts: Seq<FactModel>,
    id: SymbolModel,
    fact: FactModel,
)
    requires
        facts.contains(fact),
        fact.kind == "callable-return"@,
        fact.subject == id,
    ensures
        return_outcomes(facts, id).contains(fact.value),
{
    let count = facts.len() as int;
    facts_are_kept(facts, "callable-return"@, id, count, fact);
    assert(facts.take(count) =~= facts);
    let all = facts_on(facts, "callable-return"@, id, count);
    let at = choose|at: int| 0 <= at < all.len() && all[at] == fact;
    assert(return_outcomes(facts, id)[at] == fact.value);
}

proof fn parameters_are_called_from(
    parts: Seq<Seq<char>>,
    bindings: Seq<BindingModel>,
    position: Option<SpanModel>,
    index: int,
    parameter: int,
)
    requires
        0 <= index <= parameter < bindings.len(),
        crate::ocaml::parameters::calls_binding(parts, bindings[parameter], position),
        forall|other: int|
            0 <= other < parameter ==> !crate::ocaml::parameters::calls_binding(
                parts,
                #[trigger] bindings[other],
                position,
            ),
    ensures
        called_from(parts, bindings, position, index) == Some(parameter),
    decreases parameter - index,
{
    if index < parameter {
        parameters_are_called_from(parts, bindings, position, index + 1, parameter);
    }
}

/// A call of a parameter reaches each function that the caller passes for it,
/// and is left open where the caller leaves it open.
pub proof fn called_parameters_are_what_is_passed(
    index: IndexModel,
    called: Seq<(SymbolModel, usize)>,
    id: SymbolModel,
    context: Seq<FlowModel>,
    call: SiteModel,
    name: Seq<char>,
    parameter: int,
    symbol: SymbolModel,
    target: int,
)
    requires
        call.syntax == SyntaxModel::Path(seq![name]),
        local_value(index.facts, id, name, Some(call.span)) is None,
        0 <= parameter < parameters_of(index.facts, id).len(),
        parameter < context.len(),
        ({
            let bindings = parameters_of(index.facts, id);
            &&& bindings[parameter].kind == OcamlParameterKind::Value
            &&& bindings[parameter].name == name
            &&& bindings[parameter].scope is None
            &&& forall|other: int|
                0 <= other < parameter ==> (#[trigger] bindings[other]).name != name
        }),
    ensures
        ({
            let reached = call_outcome(index, called, id, context, call).0;
            let place = PlaceModel { caller: id, context, position: Some(call.span) };
            let values = crate::ocaml::labels::call_arguments(call);
            let function = index.functions[target].id;
            &&& reached is Dynamic
            &&& reached->unresolved_reasons == context[parameter].reasons
            &&& context[parameter].candidates.contains(symbol) && function_at(
                index.functions,
                symbol,
            ) == Some(target) ==> is_candidate(
                reached->candidates,
                specialized_id(
                    function,
                    call_context(index, place, values, function, called),
                    called,
                ),
            )
        }),
{
    let bindings = parameters_of(index.facts, id);
    let parts = seq![name];
    assert(parts[0] == name);
    assert forall|other: int| 0 <= other < parameter implies
        !crate::ocaml::parameters::calls_binding(
        parts,
        #[trigger] bindings[other],
        Some(call.span),
    ) by {
        assert(bindings[other].name != name);
    }
    parameters_are_called_from(parts, bindings, Some(call.span), 0, parameter);
    assert(called_binding(parts, bindings, Some(call.span)) == Some(parameter));
    let place = PlaceModel { caller: id, context, position: Some(call.span) };
    let values = crate::ocaml::labels::call_arguments(call);
    values_lead_to_their_functions(
        index,
        place,
        called,
        values,
        context[parameter],
        crate::text::joined(parts, "."@),
        symbol,
        target,
    );
}

} // verus!
