//! Calls among the functions of a recursive group, and calls of what a source
//! calls by one name.
use crate::lists::insertion_holds;
use crate::model::{FunctionModel, SiteModel, SyntaxModel, TargetModel};
use crate::ocaml::groups::{group_target, grouped_function, lies_in_group, path_owners};
use crate::ocaml::labels::source_name;
use crate::ocaml::local::{group_members, owner_id, span_position, KeyModel};
use crate::paths::same_place;
use vstd::prelude::*;

verus! {

proof fn owners_of_a_name(
    functions: Seq<FunctionModel>,
    owners: Seq<int>,
    parts: Seq<Seq<char>>,
    count: int,
    owner: int,
)
    requires
        0 <= count <= owners.len(),
        parts.len() > 0,
    ensures
        path_owners(functions, owners, parts, count).contains(owner) == (owners.take(
            count,
        ).contains(owner) && source_name(functions[owner].id.name) == parts.last() && (parts.len()
            == 1 || functions[owner].id.module == parts.drop_last())),
    decreases count,
{
    if count > 0 {
        owners_of_a_name(functions, owners, parts, count - 1, owner);
        let last = owners[count - 1];
        assert(owners.take(count) =~= owners.take(count - 1).push(last));
        crate::lists::pushed_items(owners.take(count - 1), last, owner);
        crate::lists::pushed_items(
            path_owners(functions, owners, parts, count - 1),
            last,
            owner,
        );
        assert(parts.take(parts.len() - 1) =~= parts.drop_last());
    }
}

/// Whether a function of a group is what a path may mean: it has the last part
/// for its name, and the parts before it, if there are any, for its module.
pub open spec fn may_mean(function: FunctionModel, parts: Seq<Seq<char>>) -> bool {
    source_name(function.id.name) == parts.last() && (parts.len() == 1 || function.id.module
        == parts.drop_last())
}

/// A call of a path reaches the function of the group that the path means, if
/// it means one.
pub proof fn groups_call_themselves(
    functions: Seq<FunctionModel>,
    owners: Seq<int>,
    call: SiteModel,
    parts: Seq<Seq<char>>,
    which: int,
)
    requires
        parts.len() > 0,
        call.syntax == SyntaxModel::Path(parts),
        0 <= which < owners.len(),
        may_mean(functions[owners[which]], parts),
        forall|other: int|
            0 <= other < owners.len() && may_mean(functions[#[trigger] owners[other]], parts)
                ==> functions[owners[other]].id == functions[owners[which]].id,
    ensures
        group_target(functions, owners, call) == TargetModel::Direct(
            functions[owners[which]].id,
        ),
{
    let found = path_owners(functions, owners, parts, owners.len() as int);
    assert(owners.take(owners.len() as int) =~= owners);
    owners_of_a_name(functions, owners, parts, owners.len() as int, owners[which]);
    assert(owners.contains(owners[which]));
    assert(found.contains(owners[which]));
    assert forall|k: int| 0 <= k < found.len() implies functions[#[trigger] found[k]].id
        == functions[owners[which]].id by {
        owners_of_a_name(functions, owners, parts, owners.len() as int, found[k]);
        assert(found.contains(found[k]));
        let other = choose|other: int| 0 <= other < owners.len() && owners[other] == found[k];
        assert(may_mean(functions[owners[other]], parts));
    }
    assert(functions[found[0]].id == functions[owners[which]].id);
}

/// A call of a path that means no function of the group is left as it is.
pub proof fn other_calls_are_left(
    functions: Seq<FunctionModel>,
    owners: Seq<int>,
    call: SiteModel,
    parts: Seq<Seq<char>>,
)
    requires
        parts.len() > 0,
        call.syntax == SyntaxModel::Path(parts),
        forall|other: int|
            0 <= other < owners.len() ==> !may_mean(functions[#[trigger] owners[other]], parts),
    ensures
        group_target(functions, owners, call) == call.target,
{
    let found = path_owners(functions, owners, parts, owners.len() as int);
    assert(owners.take(owners.len() as int) =~= owners);
    if found.len() > 0 {
        owners_of_a_name(functions, owners, parts, owners.len() as int, found[0]);
        assert(found.contains(found[0]));
        let other = choose|other: int| 0 <= other < owners.len() && owners[other] == found[0];
        assert(!may_mean(functions[owners[other]], parts));
    }
}

/// A function that stands in one of the group takes part in it.
pub proof fn inner_functions_take_part(
    functions: Seq<FunctionModel>,
    owners: Seq<int>,
    function: FunctionModel,
    which: int,
    at: int,
)
    requires
        0 <= which < owners.len(),
        0 <= at < function.calls.len(),
        same_place(functions[owners[which]].span.file, function.span.file),
        crate::spans::contains_span(functions[owners[which]].span, function.span),
    ensures
        grouped_function(functions, owners, function).calls.len() == function.calls.len(),
        grouped_function(functions, owners, function).calls[at].target == group_target(
            functions,
            owners,
            function.calls[at],
        ),
        grouped_function(functions, owners, function).calls[at].span == function.calls[at].span,
{
    assert(lies_in_group(functions, owners, function));
}

proof fn span_positions_are_within(
    functions: Seq<FunctionModel>,
    members: Seq<int>,
    place: int,
    index: nat,
)
    requires
        index <= members.len(),
    ensures
        index <= span_position(functions, members, place, index) <= members.len(),
    decreases members.len() - index,
{
    if index < members.len() {
        span_positions_are_within(functions, members, place, index + 1);
    }
}

/// The bindings of a name are all functions of that name in a module of a file
/// that stand in no other.
pub proof fn bindings_of_a_name_are_all(
    functions: Seq<FunctionModel>,
    key: KeyModel,
    count: int,
    place: int,
)
    requires
        0 <= count <= functions.len(),
    ensures
        group_members(functions, key, count).contains(place) == (0 <= place < count
            && functions[place].id.container is None && functions[place].id.name == key.name
            && functions[place].id.module == key.module && same_place(
            functions[place].span.file,
            key.file,
        )),
    decreases count,
{
    if count > 0 {
        bindings_of_a_name_are_all(functions, key, count - 1, place);
        let before = group_members(functions, key, count - 1);
        let position = span_position(functions, before, count - 1, 0) as int;
        span_positions_are_within(functions, before, count - 1, 0);
        insertion_holds(before, position, count - 1, place);
    }
}

/// The bindings of a name are told apart: the last one keeps the name, and each
/// other has one of its own.
pub proof fn bindings_are_told_apart(
    id: crate::model::SymbolModel,
    left: nat,
    right: nat,
    total: nat,
)
    requires
        left < right < total,
    ensures
        owner_id(id, left, total) != owner_id(id, right, total),
        owner_id(id, (total - 1) as nat, total) == id,
        owner_id(id, left, total).module == id.module,
        owner_id(id, left, total).container == id.container,
{
    let front = id.name + "#binding"@;
    let first = front + crate::text::decimal(left);
    let second = front + crate::text::decimal(right);
    reveal_strlit("#binding");
    crate::text::decimals_are_read_back(left);
    crate::text::decimals_are_read_back(right);
    assert(first.skip(front.len() as int) =~= crate::text::decimal(left));
    assert(second.skip(front.len() as int) =~= crate::text::decimal(right));
    assert(first.len() > id.name.len());
}

} // verus!
