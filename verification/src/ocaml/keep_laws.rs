//! Resolving names in an OCaml source takes nothing away.
use crate::model::{AnalysisModel, FactModel, FunctionModel, SiteModel, SymbolModel};
use crate::ocaml::analyze::resolved_in_source;
use crate::ocaml::groups::{
    after_recursive_groups, group_owners, grouped_function, local_calls_in,
    recursive_calls_resolved, recursive_keys, redacted_functions,
};
use crate::ocaml::local::{
    after_groups, after_members, after_owner, disambiguated, function_keys, group_members,
    KeyModel, RemapModel,
};
use crate::rust::item_laws::same_places;
use vstd::prelude::*;

verus! {

/// Whether two lists hold the same functions in the same order, with the same
/// calls, whatever they are called and wherever the calls lead.
pub open spec fn same_functions(left: Seq<FunctionModel>, right: Seq<FunctionModel>) -> bool {
    left.len() == right.len() && forall|place: int|
        #![trigger left[place]]
        #![trigger right[place]]
        0 <= place < left.len() ==> left[place].span == right[place].span && left[place].label
            == right[place].label && left[place].public == right[place].public && same_places(
            left[place].calls,
            right[place].calls,
        )
}

proof fn same_places_are_transitive(
    first: Seq<SiteModel>,
    second: Seq<SiteModel>,
    third: Seq<SiteModel>,
)
    requires
        same_places(first, second),
        same_places(second, third),
    ensures
        same_places(first, third),
{
    assert forall|place: int|
        #![trigger first[place]]
        #![trigger third[place]]
        0 <= place < first.len() implies first[place].span == third[place].span
        && first[place].syntax == third[place].syntax && first[place].id == third[place].id by {
        assert(first[place].span == second[place].span);
    }
}

proof fn sameness_is_transitive(
    first: Seq<FunctionModel>,
    second: Seq<FunctionModel>,
    third: Seq<FunctionModel>,
)
    requires
        same_functions(first, second),
        same_functions(second, third),
    ensures
        same_functions(first, third),
{
    assert forall|place: int|
        #![trigger first[place]]
        #![trigger third[place]]
        0 <= place < first.len() implies first[place].span == third[place].span
        && first[place].label == third[place].label && first[place].public == third[place].public
        && same_places(first[place].calls, third[place].calls) by {
        assert(first[place].span == second[place].span);
        assert(second[place].span == third[place].span);
        same_places_are_transitive(first[place].calls, second[place].calls, third[place].calls);
    }
}

proof fn owners_keep_functions(
    functions: Seq<FunctionModel>,
    remaps: Seq<RemapModel>,
    owner: FunctionModel,
    new_owner: SymbolModel,
    count: int,
)
    requires
        count <= functions.len(),
    ensures
        same_functions(after_owner(functions, remaps, owner, new_owner, count).0, functions),
        forall|place: int|
            count <= place < functions.len() && 0 <= place ==> #[trigger] after_owner(
                functions,
                remaps,
                owner,
                new_owner,
                count,
            ).0[place] == functions[place],
    decreases count,
{
    if count > 0 {
        owners_keep_functions(functions, remaps, owner, new_owner, count - 1);
    }
}

proof fn members_keep_functions(
    functions: Seq<FunctionModel>,
    remaps: Seq<RemapModel>,
    members: Seq<int>,
    count: int,
)
    ensures
        same_functions(after_members(functions, remaps, members, count).0, functions),
    decreases count,
{
    if count > 0 {
        members_keep_functions(functions, remaps, members, count - 1);
        let (before, changes) = after_members(functions, remaps, members, count - 1);
        let after = after_members(functions, remaps, members, count).0;
        let place = members[count - 1];
        let owner = before[place];
        owners_keep_functions(
            before,
            changes,
            owner,
            crate::ocaml::local::owner_id(owner.id, (count - 1) as nat, members.len()),
            before.len() as int,
        );
        sameness_is_transitive(after, before, functions);
    }
}

proof fn groups_keep_functions(functions: Seq<FunctionModel>, keys: Seq<KeyModel>, count: int)
    ensures
        same_functions(after_groups(functions, keys, count).0, functions),
    decreases count,
{
    if count > 0 {
        groups_keep_functions(functions, keys, count - 1);
        let (before, changes) = after_groups(functions, keys, count - 1);
        let members = group_members(functions, keys[count - 1], functions.len() as int);
        let after = after_groups(functions, keys, count).0;
        if members.len() > 1 {
            members_keep_functions(before, changes, members, members.len() as int);
            sameness_is_transitive(after, before, functions);
        }
    }
}

proof fn recursion_keeps_functions(
    functions: Seq<FunctionModel>,
    facts: Seq<FactModel>,
    keys: Seq<KeyModel>,
    count: int,
)
    ensures
        same_functions(after_recursive_groups(functions, facts, keys, count), functions),
    decreases count,
{
    if count > 0 {
        recursion_keeps_functions(functions, facts, keys, count - 1);
        let before = after_recursive_groups(functions, facts, keys, count - 1);
        let after = after_recursive_groups(functions, facts, keys, count);
        let owners = group_owners(functions, facts, keys[count - 1], facts.len() as int);
        assert forall|place: int|
            #![trigger after[place]]
            #![trigger before[place]]
            0 <= place < after.len() implies after[place].span == before[place].span
            && after[place].label == before[place].label && after[place].public
            == before[place].public && same_places(after[place].calls, before[place].calls) by {
            assert(after[place] == grouped_function(functions, owners, before[place]));
        }
        sameness_is_transitive(after, before, functions);
    }
}

/// Telling bindings apart, resolving what a source resolves by itself and
/// showing anonymous functions by their names keeps each function and each of
/// its calls, in order and in place.
pub proof fn resolving_takes_nothing_away(found: AnalysisModel)
    ensures
        same_functions(resolved_in_source(found).functions, found.functions),
        resolved_in_source(found).facts.len() == found.facts.len(),
        resolved_in_source(found).source_files == found.source_files,
{
    let keys = function_keys(found.functions, found.functions.len() as int);
    groups_keep_functions(found.functions, keys, keys.len() as int);
    let apart = disambiguated(found);
    let recursive = recursive_keys(apart.facts, apart.facts.len() as int);
    recursion_keeps_functions(apart.functions, apart.facts, recursive, recursive.len() as int);
    let grouped = recursive_calls_resolved(apart);
    sameness_is_transitive(grouped.functions, apart.functions, found.functions);
    let local = local_calls_in(grouped.functions, grouped.facts);
    assert(same_functions(local, grouped.functions)) by {
        assert forall|place: int|
            #![trigger local[place]]
            #![trigger grouped.functions[place]]
            0 <= place < local.len() implies local[place].span == grouped.functions[place].span
            && local[place].label == grouped.functions[place].label && local[place].public
            == grouped.functions[place].public && same_places(
            local[place].calls,
            grouped.functions[place].calls,
        ) by {
            let function = grouped.functions[place];
            assert forall|at: int|
                #![trigger local[place].calls[at]]
                #![trigger function.calls[at]]
                0 <= at < function.calls.len() implies local[place].calls[at].span
                == function.calls[at].span && local[place].calls[at].syntax
                == function.calls[at].syntax && local[place].calls[at].id
                == function.calls[at].id by {
                assert(local[place].calls[at] == crate::ocaml::groups::local_call(
                    grouped.functions,
                    grouped.facts,
                    function.id,
                    function.calls[at],
                ));
            }
        }
    }
    sameness_is_transitive(local, grouped.functions, found.functions);
    let shown = redacted_functions(local, grouped.facts);
    assert(same_functions(shown, local));
    sameness_is_transitive(shown, local, found.functions);
}

} // verus!
