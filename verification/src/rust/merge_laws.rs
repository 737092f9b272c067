//! What becomes of the calls of a source where a compiler speaks of them: none
//! is lost, none is made up, and no finding is used twice.
use crate::model::{FunctionModel, SiteModel, TargetModel};
use crate::lists::pushed_items;
use crate::rust::calls::{
    best_call, call_cost, call_fits, calls_lambda_expression, constructs, effective_target,
    instance_symbol, merged_calls, seen_call, InputModel,
};
use crate::rust::merge::{merged_function, merged_functions, source_of};
use crate::rust::semantic::{SemanticCallModel, SemanticModel};
use crate::spans::same_coordinates;
use vstd::prelude::*;

verus! {

/// Whether two calls stand at the same place and are written alike.
pub open spec fn same_site(left: SiteModel, right: SiteModel) -> bool {
    left.id == right.id && left.span == right.span && left.syntax == right.syntax
}

/// Whether a call of a source builds a value of the instance.
pub open spec fn builds_a_value(call: SiteModel, function: SemanticModel) -> bool {
    (exists|at: int|
        0 <= at < function.constructor_spans.len() && same_coordinates(
            call.span,
            #[trigger] function.constructor_spans[at],
        )) || (crate::rust::calls::written_name(call.syntax) is Some
        && function.constructor_names.contains(
        crate::rust::calls::written_name(call.syntax)->0,
    ))
}

/// Whether a list of calls has one that stands at the place of a call.
pub open spec fn has_site(calls: Seq<SiteModel>, call: SiteModel) -> bool {
    exists|at: int| 0 <= at < calls.len() && same_site(#[trigger] calls[at], call)
}

proof fn calls_are_merged(
    input: InputModel,
    template: FunctionModel,
    function: SemanticModel,
    count: int,
    at: int,
)
    requires
        0 <= at < count <= template.calls.len(),
        !(template.calls[at].syntax is CompilerConfirmed),
        !builds_a_value(template.calls[at], function),
    ensures
        has_site(merged_calls(input, template, function, count).calls, template.calls[at]),
    decreases count,
{
    let before = merged_calls(input, template, function, count - 1).calls;
    let after = merged_calls(input, template, function, count).calls;
    let call = template.calls[at];
    if at < count - 1 {
        calls_are_merged(input, template, function, count - 1, at);
        let found = choose|found: int|
            0 <= found < before.len() && same_site(#[trigger] before[found], call);
        assert(after[found] == before[found]);
    } else {
        assert(!constructs(call, function));
        assert(after.len() == before.len() + 1);
        assert(same_site(after[before.len() as int], call));
    }
}

/// Each call of a function of the source is a call of each instance of it,
/// unless it builds a value or stands in a macro and the compiler did not see
/// it.
pub proof fn no_call_of_the_source_is_lost(
    input: InputModel,
    template: FunctionModel,
    function: SemanticModel,
    at: int,
)
    requires
        0 <= at < template.calls.len(),
        !(template.calls[at].syntax is CompilerConfirmed),
        !builds_a_value(template.calls[at], function),
    ensures
        has_site(merged_function(input, template, function).calls, template.calls[at]),
{
    calls_are_merged(input, template, function, template.calls.len() as int, at);
}

proof fn merged_calls_are_of_the_source(
    input: InputModel,
    template: FunctionModel,
    function: SemanticModel,
    count: int,
    place: int,
)
    requires
        count <= template.calls.len(),
        0 <= place < merged_calls(input, template, function, count).calls.len(),
    ensures
        has_site(template.calls, merged_calls(input, template, function, count).calls[place]),
    decreases count,
{
    if count > 0 {
        let before = merged_calls(input, template, function, count - 1).calls;
        let after = merged_calls(input, template, function, count).calls;
        if place < before.len() {
            merged_calls_are_of_the_source(input, template, function, count - 1, place);
            assert(after[place] == before[place]);
        } else {
            assert(same_site(template.calls[count - 1], after[place]));
        }
    }
}

/// An instance makes no other calls than those of its function in the source.
pub proof fn no_call_is_made_up(
    input: InputModel,
    template: FunctionModel,
    function: SemanticModel,
    place: int,
)
    requires
        0 <= place < merged_function(input, template, function).calls.len(),
    ensures
        has_site(template.calls, merged_function(input, template, function).calls[place]),
{
    merged_calls_are_of_the_source(
        input,
        template,
        function,
        template.calls.len() as int,
        place,
    );
}

/// Of the findings of a compiler that are not used yet and can speak of a call,
/// the one that fits best is taken; none is taken only where there is none.
pub proof fn best_findings_are_taken(
    call: SiteModel,
    calls: Seq<SemanticCallModel>,
    claimed: Seq<usize>,
    known: Seq<(Seq<char>, Seq<char>)>,
    count: int,
    other: int,
)
    requires
        count <= calls.len() <= usize::MAX,
    ensures
        match best_call(call, calls, claimed, known, count) {
            Some(best) => 0 <= best < count && !claimed.contains(best as usize) && call_fits(
                call,
                calls[best],
                known,
            ),
            None => true,
        },
        0 <= other < count && !claimed.contains(other as usize) && call_fits(
            call,
            calls[other],
            known,
        ) ==> best_call(call, calls, claimed, known, count) is Some && call_cost(
            call,
            calls[best_call(call, calls, claimed, known, count)->0],
        ) <= call_cost(call, calls[other]),
    decreases count,
{
    if count > 0 {
        best_findings_are_taken(call, calls, claimed, known, count - 1, other);
    }
}

proof fn findings_are_claimed_once(
    input: InputModel,
    template: FunctionModel,
    function: SemanticModel,
    count: int,
    one: int,
    other: int,
)
    requires
        count <= template.calls.len(),
        function.calls.len() <= usize::MAX,
        0 <= one < other < merged_calls(input, template, function, count).claimed.len(),
    ensures
        merged_calls(input, template, function, count).claimed[one] != merged_calls(
            input,
            template,
            function,
            count,
        ).claimed[other],
    decreases count,
{
    if count > 0 {
        let before = merged_calls(input, template, function, count - 1).claimed;
        let after = merged_calls(input, template, function, count).claimed;
        if other < before.len() {
            findings_are_claimed_once(input, template, function, count - 1, one, other);
        } else {
            best_findings_are_taken(
                template.calls[count - 1],
                function.calls,
                before,
                input.known,
                function.calls.len() as int,
                0,
            );
            assert(before.contains(before[one]));
        }
    }
}

/// No finding of a compiler is used for two calls of a function.
pub proof fn no_finding_is_used_twice(
    input: InputModel,
    template: FunctionModel,
    function: SemanticModel,
    one: int,
    other: int,
)
    requires
        function.calls.len() <= usize::MAX,
        0 <= one < other < merged_calls(
            input,
            template,
            function,
            template.calls.len() as int,
        ).claimed.len(),
    ensures
        merged_calls(input, template, function, template.calls.len() as int).claimed[one]
            != merged_calls(
            input,
            template,
            function,
            template.calls.len() as int,
        ).claimed[other],
{
    findings_are_claimed_once(
        input,
        template,
        function,
        template.calls.len() as int,
        one,
        other,
    );
}

/// A call that a compiler speaks of reaches what the compiler says: a direct
/// call its instance, and a dynamic call a candidate for each of the
/// compiler's.
pub proof fn findings_are_believed(
    input: InputModel,
    owner: crate::model::SymbolModel,
    call: SiteModel,
    semantic: SemanticCallModel,
    at: int,
)
    ensures
        ({
            let merged = seen_call(input, owner, call, semantic).0;
            let target = effective_target(input, semantic.target);
            &&& same_site(merged, call)
            &&& target is Direct && !calls_lambda_expression(call.syntax) ==> merged.target
                == TargetModel::Direct(instance_symbol(target->Direct_key))
            &&& target is Dynamic ==> merged.target is Dynamic && merged.target->candidates.len()
                == target->candidates.len()
            &&& target is Dynamic && 0 <= at < target->candidates.len()
                ==> merged.target->candidates[at].target == instance_symbol(
                target->candidates[at].key,
            )
            &&& target is Indirect ==> merged.target is Indirect
        }),
{
}

proof fn instances_are_merged(input: InputModel, count: int, at: int)
    requires
        0 <= at < count <= input.semantic.len(),
        source_of(input.functions, input.facts, input.known, input.semantic[at]) is Some,
    ensures
        merged_functions(input, count).functions.contains(
            merged_function(
                input,
                input.functions[source_of(
                    input.functions,
                    input.facts,
                    input.known,
                    input.semantic[at],
                )->0],
                input.semantic[at],
            ),
        ),
    decreases count,
{
    let wanted = merged_function(
        input,
        input.functions[source_of(
            input.functions,
            input.facts,
            input.known,
            input.semantic[at],
        )->0],
        input.semantic[at],
    );
    let before = merged_functions(input, count - 1).functions;
    let last = input.semantic[count - 1];
    match source_of(input.functions, input.facts, input.known, last) {
        Some(index) => {
            pushed_items(before, merged_function(input, input.functions[index], last), wanted);
        },
        None => {},
    }
    if at < count - 1 {
        instances_are_merged(input, count - 1, at);
    }
}

/// Each instance of a compiler that belongs to a function of the source becomes
/// a function: under its own key, where its source stands.
pub proof fn no_instance_is_lost(input: InputModel, at: int) -> (found: FunctionModel)
    requires
        0 <= at < input.semantic.len(),
        source_of(input.functions, input.facts, input.known, input.semantic[at]) is Some,
    ensures
        merged_functions(input, input.semantic.len() as int).functions.contains(found),
        found.id == instance_symbol(input.semantic[at].key),
        found.span == input.functions[source_of(
            input.functions,
            input.facts,
            input.known,
            input.semantic[at],
        )->0].span,
{
    instances_are_merged(input, input.semantic.len() as int, at);
    merged_function(
        input,
        input.functions[source_of(
            input.functions,
            input.facts,
            input.known,
            input.semantic[at],
        )->0],
        input.semantic[at],
    )
}

} // verus!
