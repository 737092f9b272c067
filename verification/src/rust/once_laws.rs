//! What is left of functions and calls that were found more than once.
use crate::lists::insertion_holds;
use crate::model::{FunctionModel, SiteModel, SymbolModel};
use crate::paths::same_place;
use crate::rust::project::{
    call_position, calls_in_order, functions_once, has_call, id_position, with_calls,
    with_calls_of, with_function,
};
use vstd::prelude::*;

verus! {

/// Whether two calls say the same, at one place.
pub open spec fn says_the_same(left: SiteModel, right: SiteModel) -> bool {
    &&& left.id == right.id
    &&& left.syntax == right.syntax
    &&& left.target == right.target
    &&& left.label == right.label
    &&& same_place(left.span.file, right.span.file)
    &&& left.span.start_line == right.span.start_line
    &&& left.span.start_column == right.span.start_column
    &&& left.span.start_byte == right.span.start_byte
    &&& left.span.end_line == right.span.end_line
    &&& left.span.end_column == right.span.end_column
    &&& left.span.end_byte == right.span.end_byte
}

/// Whether one of some calls says the same as a call.
pub open spec fn is_said(calls: Seq<SiteModel>, call: SiteModel) -> bool {
    exists|at: int| 0 <= at < calls.len() && says_the_same(#[trigger] calls[at], call)
}

/// Whether a function of an identity has a call.
pub open spec fn is_said_by(functions: Seq<FunctionModel>, id: SymbolModel, call: SiteModel) -> bool {
    exists|at: int|
        0 <= at < functions.len() && (#[trigger] functions[at]).id == id && is_said(
            functions[at].calls,
            call,
        )
}

proof fn positions_are_within(calls: Seq<SiteModel>, call: SiteModel, index: nat)
    requires
        index <= calls.len(),
    ensures
        index <= call_position(calls, call, index) <= calls.len(),
    decreases calls.len() - index,
{
    if index < calls.len() {
        positions_are_within(calls, call, index + 1);
    }
}

proof fn ordered_calls(calls: Seq<SiteModel>, count: int, call: SiteModel)
    requires
        0 <= count <= calls.len(),
    ensures
        calls_in_order(calls, count).contains(call) == calls.take(count).contains(call),
    decreases count,
{
    if count > 0 {
        ordered_calls(calls, count - 1, call);
        let before = calls_in_order(calls, count - 1);
        let last = calls[count - 1];
        positions_are_within(before, last, 0);
        insertion_holds(before, call_position(before, last, 0) as int, last, call);
        assert(calls.take(count) =~= calls.take(count - 1).push(last));
        crate::lists::pushed_items(calls.take(count - 1), last, call);
    }
}

proof fn added_calls(calls: Seq<SiteModel>, more: Seq<SiteModel>, count: int)
    requires
        0 <= count <= more.len(),
    ensures
        forall|call: SiteModel|
            calls.contains(call) ==> #[trigger] with_calls(calls, more, count).contains(call),
        forall|at: int|
            0 <= at < count ==> is_said(
                with_calls(calls, more, count),
                #[trigger] more[at],
            ),
        forall|call: SiteModel| #[trigger]
            with_calls(calls, more, count).contains(call) ==> calls.contains(call)
                || more.contains(call),
    decreases count,
{
    if count > 0 {
        added_calls(calls, more, count - 1);
        let before = with_calls(calls, more, count - 1);
        let all = with_calls(calls, more, count);
        let last = more[count - 1];
        assert forall|call: SiteModel| all.contains(call) == (before.contains(call) || (call == last
            && !has_call(before, last))) by {
            crate::lists::pushed_items(before, last, call);
        }
        assert forall|call: SiteModel| calls.contains(call) implies #[trigger] all.contains(
            call,
        ) by {
            assert(before.contains(call));
        }
        assert forall|call: SiteModel| #[trigger] all.contains(call) implies calls.contains(call)
            || more.contains(call) by {
            if !before.contains(call) {
                assert(more[count - 1] == call);
            }
        }
        assert forall|at: int| 0 <= at < count implies is_said(all, #[trigger] more[at]) by {
            if at < count - 1 {
                let k = choose|k: int|
                    0 <= k < before.len() && says_the_same(#[trigger] before[k], more[at]);
                assert(all[k] == before[k]);
            } else if has_call(before, last) {
                let k = choose|k: int|
                    0 <= k < before.len() && crate::rust::project::same_call(
                        #[trigger] before[k],
                        last,
                    );
                assert(says_the_same(all[k], last));
            } else {
                assert(same_place(last.span.file, last.span.file));
                assert(says_the_same(all[before.len() as int], last));
            }
        }
    } else {
        assert(with_calls(calls, more, count) == calls);
    }
}

proof fn joint_calls(function: FunctionModel, other: FunctionModel, call: SiteModel)
    ensures
        is_said(function.calls, call) ==> is_said(with_calls_of(function, other).calls, call),
        other.calls.contains(call) ==> is_said(with_calls_of(function, other).calls, call),
        is_said(with_calls_of(function, other).calls, call) ==> is_said(function.calls, call)
            || is_said(other.calls, call),
{
    let calls = with_calls(function.calls, other.calls, other.calls.len() as int);
    let all = with_calls_of(function, other).calls;
    added_calls(function.calls, other.calls, other.calls.len() as int);
    assert(calls.take(calls.len() as int) =~= calls);
    if is_said(function.calls, call) {
        let k = choose|k: int|
            0 <= k < function.calls.len() && says_the_same(#[trigger] function.calls[k], call);
        assert(function.calls.contains(function.calls[k]));
        assert(calls.contains(function.calls[k]));
        ordered_calls(calls, calls.len() as int, function.calls[k]);
        let at = choose|at: int| 0 <= at < all.len() && all[at] == function.calls[k];
        assert(says_the_same(all[at], call));
    }
    if other.calls.contains(call) {
        let k = choose|k: int| 0 <= k < other.calls.len() && other.calls[k] == call;
        assert(is_said(calls, other.calls[k]));
        let place = choose|place: int|
            0 <= place < calls.len() && says_the_same(#[trigger] calls[place], call);
        assert(calls.contains(calls[place]));
        ordered_calls(calls, calls.len() as int, calls[place]);
        let at = choose|at: int| 0 <= at < all.len() && all[at] == calls[place];
        assert(says_the_same(all[at], call));
    }
    if is_said(all, call) {
        let at = choose|at: int| 0 <= at < all.len() && says_the_same(#[trigger] all[at], call);
        assert(all.contains(all[at]));
        ordered_calls(calls, calls.len() as int, all[at]);
        assert(calls.contains(all[at]));
        if function.calls.contains(all[at]) {
            let k = choose|k: int| 0 <= k < function.calls.len() && function.calls[k] == all[at];
            assert(says_the_same(function.calls[k], call));
        } else {
            let k = choose|k: int| 0 <= k < other.calls.len() && other.calls[k] == all[at];
            assert(says_the_same(other.calls[k], call));
        }
    }
}

proof fn places_are_within(functions: Seq<FunctionModel>, id: SymbolModel, index: nat)
    requires
        index <= functions.len(),
    ensures
        index <= id_position(functions, id, index) <= functions.len(),
    decreases functions.len() - index,
{
    if index < functions.len() {
        places_are_within(functions, id, index + 1);
    }
}

proof fn grown_functions(functions: Seq<FunctionModel>, function: FunctionModel, id: SymbolModel, call: SiteModel)
    ensures
        is_said_by(functions, id, call) ==> is_said_by(
            with_function(functions, function),
            id,
            call,
        ),
        function.id == id && function.calls.contains(call) ==> is_said_by(
            with_function(functions, function),
            id,
            call,
        ),
        is_said_by(with_function(functions, function), id, call) ==> is_said_by(
            functions,
            id,
            call,
        ) || (function.id == id && is_said(function.calls, call)),
{
    places_are_within(functions, function.id, 0);
    let place = id_position(functions, function.id, 0) as int;
    let grown = with_function(functions, function);
    let joins = place < functions.len() && functions[place].id == function.id;
    if joins {
        joint_calls(functions[place], function, call);
    }
    if is_said_by(functions, id, call) {
        let at = choose|at: int|
            0 <= at < functions.len() && (#[trigger] functions[at]).id == id && is_said(
                functions[at].calls,
                call,
            );
        let there = if joins || at < place {
            at
        } else {
            at + 1
        };
        assert(grown[there].id == id && is_said(grown[there].calls, call));
    }
    if function.id == id && function.calls.contains(call) {
        if !joins {
            let k = choose|k: int| 0 <= k < function.calls.len() && function.calls[k] == call;
            assert(says_the_same(function.calls[k], call));
        }
        assert(grown[place].id == id && is_said(grown[place].calls, call));
    }
    if is_said_by(grown, id, call) {
        let at = choose|at: int|
            0 <= at < grown.len() && (#[trigger] grown[at]).id == id && is_said(
                grown[at].calls,
                call,
            );
        if joins {
            assert(functions[at].id == id);
        } else if at < place {
            assert(functions[at] == grown[at]);
        } else if at > place {
            assert(functions[at - 1] == grown[at]);
        }
    }
}

/// Where functions are found more than once, the function that is left of them
/// has the calls of all of them.
pub proof fn calls_of_all_are_kept(
    functions: Seq<FunctionModel>,
    count: int,
    place: int,
    call: SiteModel,
)
    requires
        0 <= place < count <= functions.len(),
        functions[place].calls.contains(call),
    ensures
        is_said_by(functions_once(functions, count), functions[place].id, call),
    decreases count,
{
    let before = functions_once(functions, count - 1);
    if place < count - 1 {
        calls_of_all_are_kept(functions, count - 1, place, call);
    }
    grown_functions(before, functions[count - 1], functions[place].id, call);
}

/// Nor does it have a call that none of them has.
pub proof fn no_other_calls_are_kept(
    functions: Seq<FunctionModel>,
    count: int,
    id: SymbolModel,
    call: SiteModel,
)
    requires
        0 <= count <= functions.len(),
        is_said_by(functions_once(functions, count), id, call),
    ensures
        is_said_by(functions, id, call),
    decreases count,
{
    if count > 0 {
        let before = functions_once(functions, count - 1);
        grown_functions(before, functions[count - 1], id, call);
        if is_said_by(before, id, call) {
            no_other_calls_are_kept(functions, count - 1, id, call);
        } else {
            assert(functions[count - 1].id == id);
        }
    }
}

} // verus!
