//! Instances of generic functions: which are made, and what they hold.
use crate::model::{FactModel, FunctionModel, SiteModel, SymbolModel, TargetModel};
use crate::rust::generics::{
    additions, argument_for, container_type, finished_facts, finished_functions, generic_instance, grown, missing_of,
    missing_of_calls, rounds, shown_from, substituted_call, template_from, with_instances, GrownModel,
};
use vstd::prelude::*;

verus! {

/// Whether a call reaches a Rust function that none of some functions is.
pub open spec fn reaches_missing(
    functions: Seq<FunctionModel>,
    call: SiteModel,
    target: SymbolModel,
) -> bool {
    &&& call.target == TargetModel::Direct(target)
    &&& target.language == "rust"@
    &&& forall|at: int| 0 <= at < functions.len() ==> (#[trigger] functions[at]).id != target
}

/// Whether a call of some functions reaches a function that is not there.
pub open spec fn is_missing(functions: Seq<FunctionModel>, target: SymbolModel) -> bool {
    exists|place: int, at: int|
        0 <= place < functions.len() && 0 <= at < functions[place].calls.len() && reaches_missing(
            functions,
            #[trigger] functions[place].calls[at],
            target,
        )
}

proof fn missing_among_calls(
    functions: Seq<FunctionModel>,
    calls: Seq<SiteModel>,
    count: int,
    target: SymbolModel,
)
    requires
        0 <= count <= calls.len(),
    ensures
        missing_of_calls(functions, calls, count).contains(target) == exists|at: int|
            0 <= at < count && reaches_missing(functions, #[trigger] calls[at], target),
    decreases count,
{
    if count > 0 {
        missing_among_calls(functions, calls, count - 1, target);
        let last = calls[count - 1];
        assert(crate::rust::generics::asks_for(functions, last) && last.target->Direct_0 == target
            ==> reaches_missing(functions, last, target)) by {
            if crate::rust::generics::asks_for(functions, last) && last.target->Direct_0 == target {
                assert forall|at: int| 0 <= at < functions.len() implies (
                #[trigger] functions[at]).id != target by {
                    if functions[at].id == target {
                        assert(crate::rust::generics::has_id(functions, target));
                    }
                }
            }
        }
        assert(reaches_missing(functions, last, target) ==> crate::rust::generics::asks_for(
            functions,
            last,
        ));
    }
}

proof fn missing_among_functions(functions: Seq<FunctionModel>, count: int, target: SymbolModel)
    requires
        0 <= count <= functions.len(),
    ensures
        missing_of(functions, count).contains(target) == exists|place: int, at: int|
            0 <= place < count && 0 <= at < functions[place].calls.len() && reaches_missing(
                functions,
                #[trigger] functions[place].calls[at],
                target,
            ),
    decreases count,
{
    if count > 0 {
        missing_among_functions(functions, count - 1, target);
        let calls = functions[count - 1].calls;
        missing_among_calls(functions, calls, calls.len() as int, target);
        if exists|at: int|
            0 <= at < calls.len() && reaches_missing(functions, #[trigger] calls[at], target) {
            let at = choose|at: int|
                0 <= at < calls.len() && reaches_missing(functions, #[trigger] calls[at], target);
            assert(reaches_missing(functions, functions[count - 1].calls[at], target));
        }
    }
}

/// What is missing is what calls reach and no function is.
pub proof fn missing_functions_are_those_reached(
    functions: Seq<FunctionModel>,
    target: SymbolModel,
)
    ensures
        missing_of(functions, functions.len() as int).contains(target) == is_missing(
            functions,
            target,
        ),
{
    missing_among_functions(functions, functions.len() as int, target);
}

/// Each function that is asked for and that a template fits is made, under the
/// identity that was asked for.
pub proof fn fitting_instances_are_made(
    functions: Seq<FunctionModel>,
    templates: Seq<FunctionModel>,
    facts: Seq<FactModel>,
    targets: Seq<SymbolModel>,
    count: int,
    at: int,
) -> (place: int)
    requires
        0 <= at < count <= targets.len(),
        generic_instance(targets[at], functions, templates, facts) is Some,
    ensures
        0 <= place < additions(functions, templates, facts, targets, count).functions.len(),
        additions(functions, templates, facts, targets, count).functions[place].id == targets[at],
    decreases count,
{
    let before = additions(functions, templates, facts, targets, count - 1);
    if at < count - 1 {
        fitting_instances_are_made(functions, templates, facts, targets, count - 1, at)
    } else {
        before.functions.len() as int
    }
}

/// An instance is its template with its calls in place, and as public and at
/// the place of its template.
pub proof fn instances_hold_their_template(
    target: SymbolModel,
    functions: Seq<FunctionModel>,
    templates: Seq<FunctionModel>,
    facts: Seq<FactModel>,
) -> (place: int)
    requires
        generic_instance(target, functions, templates, facts) is Some,
    ensures
        0 <= place < templates.len(),
        (generic_instance(target, functions, templates, facts)->0).1 == templates[place].id,
        (generic_instance(target, functions, templates, facts)->0).0.id == target,
        (generic_instance(target, functions, templates, facts)->0).0.span
            == templates[place].span,
        (generic_instance(target, functions, templates, facts)->0).0.public
            == templates[place].public,
        (generic_instance(target, functions, templates, facts)->0).0.calls.len()
            == templates[place].calls.len(),
        forall|at: int|
            0 <= at < templates[place].calls.len() ==> {
                let made = #[trigger] (generic_instance(
                    target,
                    functions,
                    templates,
                    facts,
                )->0).0.calls[at];
                made.span == templates[place].calls[at].span && made.id
                    == templates[place].calls[at].id
            },
{
    let (base, arguments) = crate::rust::generics::instance_parts(target.name)->0;
    templates_are_there(templates, facts, base, arguments.len(), 0);
    template_from(templates, facts, base, arguments.len(), 0)->0
}

proof fn templates_are_there(
    templates: Seq<FunctionModel>,
    facts: Seq<FactModel>,
    base: Seq<char>,
    count: nat,
    index: int,
)
    requires
        0 <= index,
        template_from(templates, facts, base, count, index) is Some,
    ensures
        index <= template_from(templates, facts, base, count, index)->0 < templates.len(),
    decreases templates.len() - index,
{
    if index < templates.len() && !crate::rust::generics::is_template(
        templates[index],
        facts,
        base,
        count,
    ) {
        templates_are_there(templates, facts, base, count, index + 1);
    }
}

proof fn rounds_keep_functions(
    functions: Seq<FunctionModel>,
    templates: Seq<FunctionModel>,
    facts: Seq<FactModel>,
    count: nat,
)
    ensures
        functions.len() <= rounds(functions, templates, facts, count).functions.len(),
        forall|at: int|
            0 <= at < functions.len() ==> #[trigger] rounds(
                functions,
                templates,
                facts,
                count,
            ).functions[at] == functions[at],
    decreases count,
{
    if count > 0 {
        rounds_keep_functions(functions, templates, facts, (count - 1) as nat);
        let before = rounds(functions, templates, facts, (count - 1) as nat);
        let after = rounds(functions, templates, facts, count);
        assert forall|at: int| 0 <= at < functions.len() implies #[trigger] after.functions[at]
            == functions[at] by {
            assert(before.functions[at] == functions[at]);
        }
    }
}

proof fn others_are_finished(grown: GrownModel, count: int, at: int) -> (place: int)
    requires
        0 <= at < count <= grown.functions.len(),
        !grown.used.contains(grown.functions[at].id),
    ensures
        0 <= place < finished_functions(grown, count).len(),
        finished_functions(grown, count)[place].id == grown.functions[at].id,
        finished_functions(grown, count)[place].span == grown.functions[at].span,
        finished_functions(grown, count)[place].label == grown.functions[at].label,
        finished_functions(grown, count)[place].calls.len() == grown.functions[at].calls.len(),
        forall|k: int|
            0 <= k < grown.functions[at].calls.len() ==> {
                let call = #[trigger] finished_functions(grown, count)[place].calls[k];
                call.target == grown.functions[at].calls[k].target && call.span
                    == grown.functions[at].calls[k].span
            },
    decreases count,
{
    let before = finished_functions(grown, count - 1);
    if at < count - 1 {
        others_are_finished(grown, count - 1, at)
    } else {
        before.len() as int
    }
}

/// A function that no instance is made of stays, with all its calls and what
/// they reach.
pub proof fn other_functions_stay(
    functions: Seq<FunctionModel>,
    facts: Seq<FactModel>,
    templates: Seq<FunctionModel>,
    template_facts: Seq<FactModel>,
    at: int,
) -> (place: int)
    requires
        0 <= at < functions.len(),
        !grown(functions, templates, template_facts).used.contains(functions[at].id),
    ensures
        0 <= place < with_instances(functions, facts, templates, template_facts).0.len(),
        ({
            let kept = with_instances(functions, facts, templates, template_facts).0[place];
            &&& kept.id == functions[at].id
            &&& kept.span == functions[at].span
            &&& kept.label == functions[at].label
            &&& kept.calls.len() == functions[at].calls.len()
            &&& forall|k: int|
                0 <= k < functions[at].calls.len() ==> (#[trigger] kept.calls[k]).target
                    == functions[at].calls[k].target && kept.calls[k].span
                    == functions[at].calls[k].span
        }),
{
    if crate::rust::generics::has_parameters(template_facts) {
        let all = grown(functions, templates, template_facts);
        let count = choose|count: nat| #[trigger]
            crate::rust::generics::settles_at(functions, templates, template_facts, count);
        rounds_keep_functions(functions, templates, template_facts, count);
        assert(all.functions[at] == functions[at]);
        others_are_finished(all, all.functions.len() as int, at)
    } else {
        at
    }
}

proof fn other_facts_are_finished(
    facts: Seq<FactModel>,
    used: Seq<SymbolModel>,
    count: int,
    fact: FactModel,
)
    requires
        0 <= count <= facts.len(),
    ensures
        finished_facts(facts, used, count).contains(fact) == (facts.take(count).contains(fact)
            && !used.contains(fact.subject)),
    decreases count,
{
    if count > 0 {
        other_facts_are_finished(facts, used, count - 1, fact);
        let last = facts[count - 1];
        assert(facts.take(count) =~= facts.take(count - 1).push(last));
        crate::lists::pushed_items(facts.take(count - 1), last, fact);
        crate::lists::pushed_items(finished_facts(facts, used, count - 1), last, fact);
    }
}

/// The facts that are left are those that tell of no function that an instance
/// was made of.
pub proof fn other_facts_stay(
    functions: Seq<FunctionModel>,
    facts: Seq<FactModel>,
    templates: Seq<FunctionModel>,
    template_facts: Seq<FactModel>,
    fact: FactModel,
)
    requires
        crate::rust::generics::has_parameters(template_facts),
    ensures
        with_instances(functions, facts, templates, template_facts).1.contains(fact) == (
        facts.contains(fact) && !grown(functions, templates, template_facts).used.contains(
            fact.subject,
        )),
{
    other_facts_are_finished(
        facts,
        grown(functions, templates, template_facts).used,
        facts.len() as int,
        fact,
    );
    assert(facts.take(facts.len() as int) =~= facts);
}

proof fn arguments_are_found(
    parameters: Seq<Seq<char>>,
    arguments: Seq<Seq<char>>,
    count: int,
    which: int,
)
    requires
        0 <= which < count <= parameters.len(),
        forall|other: int|
            0 <= other < parameters.len() && other != which ==> #[trigger] parameters[other]
                != parameters[which],
    ensures
        argument_for(parameters, arguments, parameters[which], count) == Some(arguments[which]),
    decreases count,
{
    if which < count - 1 {
        assert(parameters[count - 1] != parameters[which]);
        arguments_are_found(parameters, arguments, count - 1, which);
    }
}

proof fn other_names_have_no_argument(
    parameters: Seq<Seq<char>>,
    arguments: Seq<Seq<char>>,
    name: Seq<char>,
    count: int,
)
    requires
        0 <= count <= parameters.len(),
        !parameters.contains(name),
    ensures
        argument_for(parameters, arguments, name, count) is None,
    decreases count,
{
    if count > 0 {
        assert(parameters.contains(parameters[count - 1]));
        other_names_have_no_argument(parameters, arguments, name, count - 1);
    }
}

/// In an instance a call of a method of a type parameter reaches the method of
/// that name of the argument, at the same place; a call that has nothing to do
/// with a parameter stays as it is.
pub proof fn type_parameters_become_arguments(
    call: SiteModel,
    target: SymbolModel,
    parameters: Seq<Seq<char>>,
    arguments: Seq<Seq<char>>,
    functions: Seq<FunctionModel>,
    which: int,
)
    requires
        call.target == TargetModel::Direct(target),
        parameters.len() == arguments.len(),
        0 <= which < parameters.len(),
        forall|other: int|
            0 <= other < parameters.len() && other != which ==> #[trigger] parameters[other]
                != parameters[which],
    ensures
        target.container is None ==> substituted_call(call, parameters, arguments, functions)
            == call,
        target.container is Some && !parameters.contains(container_type(target.container->0))
            ==> substituted_call(call, parameters, arguments, functions) == call,
        target.container is Some && container_type(target.container->0) == parameters[which] ==> ({
            let made = substituted_call(call, parameters, arguments, functions);
            let callee = arguments[which] + seq![':', ':'] + target.name;
            &&& made.span == call.span
            &&& match shown_from(functions, callee, 0) {
                Some(place) => made.target == TargetModel::Direct(functions[place].id),
                None => made.target is Direct && made.target->Direct_0.container == Some(
                    arguments[which],
                ) && made.target->Direct_0.name == target.name
                    && made.target->Direct_0.module == target.module,
            }
        }),
{
    reveal_strlit("::");
    assert("::"@ =~= seq![':', ':']);
    if target.container is Some {
        let name = container_type(target.container->0);
        if name == parameters[which] {
            arguments_are_found(parameters, arguments, parameters.len() as int, which);
        }
        if !parameters.contains(name) {
            other_names_have_no_argument(parameters, arguments, name, parameters.len() as int);
        }
    }
}

} // verus!
