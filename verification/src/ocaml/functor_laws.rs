//! What applying a functor gives: its functions under the name of the instance,
//! with the argument in place of the parameter.
use crate::model::{FactModel, FunctionModel, SiteModel, SymbolModel, SyntaxModel};
use crate::ocaml::aliases::own_module;
use crate::ocaml::functors::{
    applied_call, applied_functor, applied_modules, functor_parameters, instance_function,
    instance_functions, new_functions, with_instance, with_instances, MoveModel,
};
use crate::ocaml::symbols::{function_at, function_place};
use crate::text::pieces;
use vstd::prelude::*;

verus! {

/// Whether some functions hold one of a module and a name.
pub open spec fn has_function(
    functions: Seq<FunctionModel>,
    module: Seq<Seq<char>>,
    name: Seq<char>,
) -> bool {
    exists|at: int|
        0 <= at < functions.len() && (#[trigger] functions[at]).id.module == module
            && functions[at].id.name == name
}

proof fn places_hold_the_symbol(functions: Seq<FunctionModel>, id: SymbolModel, count: int)
    requires
        count <= functions.len(),
        function_place(functions, id, count) is Some,
    ensures
        0 <= function_place(functions, id, count)->0 < functions.len(),
        functions[function_place(functions, id, count)->0].id == id,
    decreases count,
{
    if count > 0 && functions[count - 1].id != id {
        places_hold_the_symbol(functions, id, count - 1);
    }
}

proof fn functions_are_moved(
    shift: MoveModel,
    parameters: Seq<Seq<char>>,
    modules: Seq<Seq<Seq<char>>>,
    count: int,
    at: int,
    rest: Seq<Seq<char>>,
) -> (place: int)
    requires
        0 <= at < count <= shift.functions.len(),
        shift.functions[at].id.module == shift.functor + rest,
    ensures
        0 <= place < instance_functions(shift, parameters, modules, count).len(),
        instance_functions(shift, parameters, modules, count)[place].1.id.module == shift.instance
            + rest,
        instance_functions(shift, parameters, modules, count)[place].1.id.name
            == shift.functions[at].id.name,
    decreases count,
{
    let before = instance_functions(shift, parameters, modules, count - 1);
    if at < count - 1 {
        functions_are_moved(shift, parameters, modules, count - 1, at, rest)
    } else {
        let module = shift.functions[at].id.module;
        assert(module.take(shift.functor.len() as int) =~= shift.functor);
        assert(module.skip(shift.functor.len() as int) =~= rest);
        before.len() as int
    }
}

proof fn clones_are_added(
    existing: Seq<FunctionModel>,
    clones: Seq<(SymbolModel, FunctionModel)>,
    count: int,
    at: int,
)
    requires
        0 <= at < count <= clones.len(),
    ensures
        has_function(
            existing + new_functions(existing, clones, count),
            clones[at].1.id.module,
            clones[at].1.id.name,
        ),
    decreases count,
{
    let id = clones[at].1.id;
    let before = new_functions(existing, clones, count - 1);
    let all = existing + new_functions(existing, clones, count);
    if at < count - 1 {
        clones_are_added(existing, clones, count - 1, at);
        let shorter = existing + before;
        let k = choose|k: int|
            0 <= k < shorter.len() && (#[trigger] shorter[k]).id.module == id.module
                && shorter[k].id.name == id.name;
        assert(all[k] == shorter[k]);
    } else if function_at(existing, id) is Some {
        places_hold_the_symbol(existing, id, existing.len() as int);
        let k = function_at(existing, id)->0;
        assert(all[k] == existing[k]);
    } else {
        assert(all[(existing.len() + before.len()) as int] == clones[at].1);
    }
}

proof fn instances_keep_what_is_there(
    base: (Seq<FunctionModel>, Seq<FactModel>),
    from: int,
    count: int,
)
    requires
        0 <= from <= count,
    ensures
        with_instances(base, from).0.len() <= with_instances(base, count).0.len(),
        with_instances(base, from).1.len() <= with_instances(base, count).1.len(),
        forall|at: int|
            0 <= at < with_instances(base, from).0.len() ==> #[trigger] with_instances(
                base,
                count,
            ).0[at] == with_instances(base, from).0[at],
        forall|at: int|
            0 <= at < with_instances(base, from).1.len() ==> #[trigger] with_instances(
                base,
                count,
            ).1[at] == with_instances(base, from).1[at],
    decreases count,
{
    if count > from {
        instances_keep_what_is_there(base, from, count - 1);
        let before = with_instances(base, count - 1);
        let after = with_instances(base, count);
        assert(before.0.len() <= after.0.len() && before.1.len() <= after.1.len());
        assert forall|at: int| 0 <= at < before.0.len() implies #[trigger] after.0[at]
            == before.0[at] by {}
        assert forall|at: int| 0 <= at < before.1.len() implies #[trigger] after.1[at]
            == before.1[at] by {}
    }
}

/// Applying functors takes no function and no fact away.
pub proof fn applying_takes_nothing_away(base: (Seq<FunctionModel>, Seq<FactModel>), count: int)
    requires
        0 <= count,
    ensures
        with_instances(base, count).0.len() >= base.0.len(),
        with_instances(base, count).1.len() >= base.1.len(),
        forall|at: int|
            0 <= at < base.0.len() ==> #[trigger] with_instances(base, count).0[at] == base.0[at],
        forall|at: int|
            0 <= at < base.1.len() ==> #[trigger] with_instances(base, count).1[at] == base.1[at],
{
    instances_keep_what_is_there(base, 0, count);
    assert(with_instances(base, 0) == base);
}

/// An instance of a functor has each function of the functor, of the same name
/// and under the same path behind its own.
pub proof fn instances_have_every_function(
    base: (Seq<FunctionModel>, Seq<FactModel>),
    count: int,
    place: int,
    at: int,
    rest: Seq<Seq<char>>,
)
    requires
        0 <= place < count <= base.1.len(),
        base.1[place].kind == "functor-instance"@,
        0 <= at < base.0.len(),
        base.0[at].id.module == applied_functor(base.1, base.1[place]) + rest,
        functor_parameters(
            base.1,
            applied_functor(base.1, base.1[place]),
            base.1.len() as int,
        ).len() > 0,
        functor_parameters(
            base.1,
            applied_functor(base.1, base.1[place]),
            base.1.len() as int,
        ).len() == applied_modules(
            base.0,
            base.1[place].subject.module,
            pieces(base.1[place].value, "\t"@),
            pieces(base.1[place].value, "\t"@).len() as int,
        ).len(),
    ensures
        has_function(
            with_instances(base, count).0,
            base.1[place].subject.module + seq![base.1[place].subject.name] + rest,
            base.0[at].id.name,
        ),
{
    let instance = base.1[place];
    let functor = applied_functor(base.1, instance);
    let parameters = functor_parameters(base.1, functor, base.1.len() as int);
    let values = pieces(instance.value, "\t"@);
    let modules = applied_modules(
        base.0,
        instance.subject.module,
        values,
        values.len() as int,
    );
    let shift = MoveModel { functions: base.0, functor, instance: own_module(instance.subject) };
    let clones = instance_functions(shift, parameters, modules, base.0.len() as int);
    let k = functions_are_moved(shift, parameters, modules, base.0.len() as int, at, rest);
    let before = with_instances(base, place);
    clones_are_added(before.0, clones, clones.len() as int, k);
    let after = with_instances(base, place + 1);
    assert(after == with_instance(base, before, instance));
    instances_keep_what_is_there(base, place + 1, count);
    let all = with_instances(base, count).0;
    let module = clones[k].1.id.module;
    let name = clones[k].1.id.name;
    let found = choose|found: int|
        0 <= found < after.0.len() && (#[trigger] after.0[found]).id.module == module
            && after.0[found].id.name == name;
    assert(all[found] == after.0[found]);
    assert(module =~= instance.subject.module + seq![instance.subject.name] + rest);
}

proof fn paths_are_replaced(
    shift: MoveModel,
    call: SiteModel,
    parameters: Seq<Seq<char>>,
    modules: Seq<Seq<Seq<char>>>,
    count: int,
    which: int,
    rest: Seq<Seq<char>>,
)
    requires
        0 <= count <= parameters.len(),
        parameters.len() == modules.len(),
        0 <= which < parameters.len(),
        call.syntax == SyntaxModel::Path(seq![parameters[which]] + rest),
        modules[which].len() > 0,
        forall|other: int|
            0 <= other < parameters.len() && other != which ==> #[trigger] parameters[other]
                != parameters[which] && parameters[other] != modules[which][0],
    ensures
        applied_call(shift, call, parameters, modules, count).syntax == if which < count {
            SyntaxModel::Path(modules[which] + rest)
        } else {
            call.syntax
        },
        applied_call(shift, call, parameters, modules, count).span == call.span,
        applied_call(shift, call, parameters, modules, count).id == call.id,
    decreases count,
{
    if count > 0 {
        paths_are_replaced(shift, call, parameters, modules, count - 1, which, rest);
        let path = seq![parameters[which]] + rest;
        let whole = modules[which] + rest;
        if count - 1 == which {
            assert(path.skip(1) =~= rest);
            assert(path[0] == parameters[which]);
        } else {
            assert(parameters[count - 1] != parameters[which]);
            assert(path[0] == parameters[which]);
            assert(whole[0] == modules[which][0]);
        }
    }
}

/// In an instance of a functor a call of a function of a parameter is a call of
/// that function of the argument, at the same place.
pub proof fn parameters_become_arguments(
    shift: MoveModel,
    function: FunctionModel,
    parameters: Seq<Seq<char>>,
    modules: Seq<Seq<Seq<char>>>,
    at: int,
    which: int,
    rest: Seq<Seq<char>>,
)
    requires
        parameters.len() == modules.len(),
        0 <= which < parameters.len(),
        0 <= at < function.calls.len(),
        function.calls[at].syntax == SyntaxModel::Path(seq![parameters[which]] + rest),
        modules[which].len() > 0,
        forall|other: int|
            0 <= other < parameters.len() && other != which ==> #[trigger] parameters[other]
                != parameters[which] && parameters[other] != modules[which][0],
    ensures
        instance_function(shift, function, parameters, modules).calls.len()
            == function.calls.len(),
        instance_function(shift, function, parameters, modules).calls[at].syntax
            == SyntaxModel::Path(modules[which] + rest),
        instance_function(shift, function, parameters, modules).calls[at].span
            == function.calls[at].span,
{
    paths_are_replaced(
        shift,
        function.calls[at],
        parameters,
        modules,
        parameters.len() as int,
        which,
        rest,
    );
}

proof fn paths_are_kept(
    shift: MoveModel,
    call: SiteModel,
    parameters: Seq<Seq<char>>,
    modules: Seq<Seq<Seq<char>>>,
    count: int,
    path: Seq<Seq<char>>,
)
    requires
        0 <= count <= parameters.len(),
        call.syntax == SyntaxModel::Path(path),
        path.len() > 0,
        !parameters.contains(path[0]),
    ensures
        applied_call(shift, call, parameters, modules, count).syntax == call.syntax,
        applied_call(shift, call, parameters, modules, count).span == call.span,
    decreases count,
{
    if count > 0 {
        paths_are_kept(shift, call, parameters, modules, count - 1, path);
        assert(parameters.contains(parameters[count - 1]));
    }
}

/// In an instance of a functor a call that no parameter takes part in is
/// written as it is in the functor.
pub proof fn other_calls_stay(
    shift: MoveModel,
    function: FunctionModel,
    parameters: Seq<Seq<char>>,
    modules: Seq<Seq<Seq<char>>>,
    at: int,
    path: Seq<Seq<char>>,
)
    requires
        0 <= at < function.calls.len(),
        function.calls[at].syntax == SyntaxModel::Path(path),
        path.len() > 0,
        !parameters.contains(path[0]),
    ensures
        instance_function(shift, function, parameters, modules).calls[at].syntax
            == SyntaxModel::Path(path),
        instance_function(shift, function, parameters, modules).calls[at].span
            == function.calls[at].span,
{
    paths_are_kept(
        shift,
        function.calls[at],
        parameters,
        modules,
        parameters.len() as int,
        path,
    );
}

} // verus!
