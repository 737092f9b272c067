//! Which function a call means that only its name tells.
use crate::graph::{
    all_facts, all_functions, fits, fitting_count, holds_files, in_order, last_fitting, place_fits,
    resolved_call, GraphModel,
};
use crate::lists::joint_items;
use crate::model::{
    AnalysisModel, FactModel, FunctionModel, SymbolModel, SyntaxModel,
};
use crate::roots::symbols_are_distinct;
use vstd::prelude::*;

verus! {

/// The name that a call is written with, if it is.
pub open spec fn written_name(syntax: SyntaxModel) -> Option<Seq<char>> {
    match syntax {
        SyntaxModel::Path(parts) => if parts.len() > 0 {
            Some(parts[parts.len() - 1])
        } else {
            None
        },
        SyntaxModel::SelfMethod(method) => Some(method),
        SyntaxModel::Method { receiver, method } => Some(method),
        _ => None,
    }
}

/// Whether a function of a graph has the name and the language of a call.
pub open spec fn has_its_name(
    graph: GraphModel,
    caller: SymbolModel,
    syntax: SyntaxModel,
    at: int,
) -> bool {
    0 <= at < graph.functions.len() && written_name(syntax) == Some(graph.functions[at].id.name)
        && graph.functions[at].id.language == caller.language
}

proof fn fitting_are_counted(
    functions: Seq<FunctionModel>,
    caller: SymbolModel,
    syntax: SyntaxModel,
    by_place: bool,
    count: nat,
)
    requires
        count <= functions.len(),
    ensures
        match last_fitting(functions, caller, syntax, by_place, count) {
            Some(id) => fitting_count(functions, caller, syntax, by_place, count) > 0
                && exists|at: int|
                0 <= at < count && (#[trigger] functions[at]).id == id && fits(
                    caller,
                    syntax,
                    by_place,
                    id,
                ),
            None => fitting_count(functions, caller, syntax, by_place, count) == 0 && forall|
                at: int,
            |
                0 <= at < count ==> !fits(caller, syntax, by_place, (#[trigger] functions[at]).id),
        },
        forall|at: int|
            0 <= at < count && fits(caller, syntax, by_place, (#[trigger] functions[at]).id)
                ==> fitting_count(functions, caller, syntax, by_place, count) > 0,
        forall|one: int, other: int|
            0 <= one < other < count && fits(
                caller,
                syntax,
                by_place,
                (#[trigger] functions[one]).id,
            ) && fits(caller, syntax, by_place, (#[trigger] functions[other]).id) ==> fitting_count(
                functions,
                caller,
                syntax,
                by_place,
                count,
            ) > 1,
    decreases count,
{
    if count > 0 {
        fitting_are_counted(functions, caller, syntax, by_place, (count - 1) as nat);
        if fits(caller, syntax, by_place, functions[count - 1].id) {
            assert(functions[count - 1].id == functions[count - 1].id);
        }
    }
}

proof fn lone_fitting_is_counted_once(
    functions: Seq<FunctionModel>,
    caller: SymbolModel,
    syntax: SyntaxModel,
    by_place: bool,
    count: nat,
    place: int,
)
    requires
        0 <= place < functions.len(),
        count <= functions.len(),
        fits(caller, syntax, by_place, functions[place].id),
        forall|at: int|
            0 <= at < functions.len() && fits(caller, syntax, by_place, (#[trigger] functions[at]).id)
                ==> at == place,
    ensures
        fitting_count(functions, caller, syntax, by_place, count) == (if place < count {
            1nat
        } else {
            0nat
        }),
        place < count ==> last_fitting(functions, caller, syntax, by_place, count) == Some(
            functions[place].id,
        ),
    decreases count,
{
    if count > 0 {
        lone_fitting_is_counted_once(
            functions,
            caller,
            syntax,
            by_place,
            (count - 1) as nat,
            place,
        );
        assert(functions[count - 1].id == functions[count - 1].id);
    }
}

/// A call means a function only if that is there, has the name that the call is
/// written with, and is of the caller's language.
pub proof fn calls_mean_functions_of_their_name(
    graph: GraphModel,
    caller: SymbolModel,
    syntax: SyntaxModel,
)
    requires
        resolved_call(graph, caller, syntax) is Some,
    ensures
        exists|at: int| #[trigger]
            has_its_name(graph, caller, syntax, at) && graph.functions[at].id == resolved_call(
                graph,
                caller,
                syntax,
            )->0,
{
    let all = graph.functions.len();
    fitting_are_counted(graph.functions, caller, syntax, true, all);
    fitting_are_counted(graph.functions, caller, syntax, false, all);
    let by_place = fitting_count(graph.functions, caller, syntax, true, all) > 0;
    let id = resolved_call(graph, caller, syntax)->0;
    let at = choose|at: int|
        0 <= at < all && (#[trigger] graph.functions[at]).id == id && fits(
            caller,
            syntax,
            by_place,
            id,
        );
    assert(has_its_name(graph, caller, syntax, at));
}

proof fn lone_places_are_meant(
    graph: GraphModel,
    caller: SymbolModel,
    syntax: SyntaxModel,
    place: int,
)
    requires
        0 <= place < graph.functions.len(),
        place_fits(caller, syntax, graph.functions[place].id),
        forall|at: int|
            0 <= at < graph.functions.len() && place_fits(
                caller,
                syntax,
                (#[trigger] graph.functions[at]).id,
            ) ==> at == place,
    ensures
        resolved_call(graph, caller, syntax) == Some(graph.functions[place].id),
{
    lone_fitting_is_counted_once(
        graph.functions,
        caller,
        syntax,
        true,
        graph.functions.len(),
        place,
    );
}

proof fn ids_are_distinct(graph: GraphModel, one: int, other: int)
    requires
        in_order(graph),
        0 <= one < graph.functions.len(),
        0 <= other < graph.functions.len(),
        graph.functions[one].id == graph.functions[other].id,
    ensures
        one == other,
{
    symbols_are_distinct(graph, one, other);
}

/// A call by one name means the function of that name in the caller's own
/// module, whatever else has that name elsewhere.
pub proof fn own_functions_come_first(
    graph: GraphModel,
    caller: SymbolModel,
    name: Seq<char>,
    place: int,
)
    requires
        in_order(graph),
        0 <= place < graph.functions.len(),
        name != "Self"@,
        graph.functions[place].id == (SymbolModel {
            language: caller.language,
            module: caller.module,
            container: None,
            name,
        }),
    ensures
        resolved_call(graph, caller, SyntaxModel::Path(seq![name])) == Some(
            graph.functions[place].id,
        ),
{
    let syntax = SyntaxModel::Path(seq![name]);
    assert(seq![name].last() == name);
    assert forall|at: int|
        0 <= at < graph.functions.len() && place_fits(
            caller,
            syntax,
            (#[trigger] graph.functions[at]).id,
        ) implies at == place by {
        ids_are_distinct(graph, at, place);
    }
    lone_places_are_meant(graph, caller, syntax, place);
}

/// A call of a method of `self` means the method of the caller's own type.
pub proof fn own_methods_come_first(
    graph: GraphModel,
    caller: SymbolModel,
    method: Seq<char>,
    place: int,
)
    requires
        in_order(graph),
        0 <= place < graph.functions.len(),
        caller.container is Some,
        graph.functions[place].id == (SymbolModel { name: method, ..caller }),
    ensures
        resolved_call(graph, caller, SyntaxModel::SelfMethod(method)) == Some(
            graph.functions[place].id,
        ),
        resolved_call(graph, caller, SyntaxModel::Path(seq!["Self"@, method])) == Some(
            graph.functions[place].id,
        ),
{
    let first = SyntaxModel::SelfMethod(method);
    let second = SyntaxModel::Path(seq!["Self"@, method]);
    assert(seq!["Self"@, method].last() == method);
    assert forall|at: int|
        0 <= at < graph.functions.len() && place_fits(
            caller,
            first,
            (#[trigger] graph.functions[at]).id,
        ) implies at == place by {
        ids_are_distinct(graph, at, place);
    }
    lone_places_are_meant(graph, caller, first, place);
    assert forall|at: int|
        0 <= at < graph.functions.len() && place_fits(
            caller,
            second,
            (#[trigger] graph.functions[at]).id,
        ) implies at == place by {
        ids_are_distinct(graph, at, place);
    }
    lone_places_are_meant(graph, caller, second, place);
}

/// A call whose name only one function has means that function, if none is
/// nearer by its place.
pub proof fn lone_names_are_meant(
    graph: GraphModel,
    caller: SymbolModel,
    syntax: SyntaxModel,
    place: int,
)
    requires
        has_its_name(graph, caller, syntax, place),
        forall|at: int| #[trigger] has_its_name(graph, caller, syntax, at) ==> at == place,
    ensures
        resolved_call(graph, caller, syntax) == Some(graph.functions[place].id),
{
    let all = graph.functions.len();
    assert forall|at: int|
        0 <= at < graph.functions.len() && fits(
            caller,
            syntax,
            false,
            (#[trigger] graph.functions[at]).id,
        ) implies at == place by {
        assert(has_its_name(graph, caller, syntax, at));
    }
    lone_fitting_is_counted_once(graph.functions, caller, syntax, false, all, place);
    fitting_are_counted(graph.functions, caller, syntax, true, all);
    if fitting_count(graph.functions, caller, syntax, true, all) > 0 {
        let id = last_fitting(graph.functions, caller, syntax, true, all)->0;
        let at = choose|at: int|
            0 <= at < all && (#[trigger] graph.functions[at]).id == id && fits(
                caller,
                syntax,
                true,
                id,
            );
        assert(has_its_name(graph, caller, syntax, at));
        assert forall|at: int|
            0 <= at < graph.functions.len() && place_fits(
                caller,
                syntax,
                (#[trigger] graph.functions[at]).id,
            ) implies at == place by {
            assert(has_its_name(graph, caller, syntax, at));
        }
        lone_places_are_meant(graph, caller, syntax, place);
    }
}

/// A call that two functions of its name could mean, both by their place or, as
/// none is near by its place, both by name, means neither.
pub proof fn doubtful_names_mean_nothing(
    graph: GraphModel,
    caller: SymbolModel,
    syntax: SyntaxModel,
    one: int,
    other: int,
)
    requires
        has_its_name(graph, caller, syntax, one),
        has_its_name(graph, caller, syntax, other),
        one < other,
        (place_fits(caller, syntax, graph.functions[one].id) && place_fits(
            caller,
            syntax,
            graph.functions[other].id,
        )) || forall|at: int|
            0 <= at < graph.functions.len() ==> !place_fits(
                caller,
                syntax,
                (#[trigger] graph.functions[at]).id,
            ),
    ensures
        resolved_call(graph, caller, syntax) is None,
{
    let all = graph.functions.len();
    fitting_are_counted(graph.functions, caller, syntax, true, all);
    fitting_are_counted(graph.functions, caller, syntax, false, all);
    assert(fits(caller, syntax, false, graph.functions[one].id));
    assert(fits(caller, syntax, false, graph.functions[other].id));
    if fitting_count(graph.functions, caller, syntax, true, all) > 0 {
        let id = last_fitting(graph.functions, caller, syntax, true, all)->0;
        let at = choose|at: int|
            0 <= at < all && (#[trigger] graph.functions[at]).id == id && fits(
                caller,
                syntax,
                true,
                id,
            );
        assert(fits(caller, syntax, true, graph.functions[one].id));
        assert(fits(caller, syntax, true, graph.functions[other].id));
    }
}

proof fn functions_of_files_are_listed(
    files: Seq<AnalysisModel>,
    count: nat,
    at: int,
    function: FunctionModel,
)
    requires
        0 <= at < count <= files.len(),
        files[at].functions.contains(function),
    ensures
        all_functions(files, count).contains(function),
    decreases count,
{
    joint_items(
        all_functions(files, (count - 1) as nat),
        files[count - 1].functions,
        function,
    );
    if at < count - 1 {
        functions_of_files_are_listed(files, (count - 1) as nat, at, function);
    }
}

proof fn facts_of_files_are_listed(
    files: Seq<AnalysisModel>,
    count: nat,
    at: int,
    fact: FactModel,
)
    requires
        0 <= at < count <= files.len(),
        files[at].facts.contains(fact),
    ensures
        all_facts(files, count).contains(fact),
    decreases count,
{
    joint_items(all_facts(files, (count - 1) as nat), files[count - 1].facts, fact);
    if at < count - 1 {
        facts_of_files_are_listed(files, (count - 1) as nat, at, fact);
    }
}

/// The graph of some files holds each function and each fact of each file.
pub proof fn graphs_hold_each_file(
    graph: GraphModel,
    files: Seq<AnalysisModel>,
    at: int,
    function: FunctionModel,
    fact: FactModel,
)
    requires
        holds_files(graph, files),
        0 <= at < files.len(),
    ensures
        files[at].functions.contains(function) ==> graph.functions.contains(function),
        files[at].facts.contains(fact) ==> graph.facts.contains(fact),
{
    if files[at].functions.contains(function) {
        functions_of_files_are_listed(files, files.len(), at, function);
        crate::graph::graphs_hold_their_functions(graph, files, function);
    }
    if files[at].facts.contains(fact) {
        facts_of_files_are_listed(files, files.len(), at, fact);
    }
}

} // verus!
