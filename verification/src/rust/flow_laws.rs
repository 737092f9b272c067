//! What holds of every flow of dynamic values.
use crate::model::UnresolvedReason;
use crate::rust::mir::ConcreteModel;
use crate::rust::provenance::{
    has_concrete, joint, nothing, number_position, substituted, substituted_to, with_concretes,
    with_number, with_numbers, DynModel,
};
use crate::sets::{reason_position, with_reason, with_reasons};
use vstd::prelude::*;

verus! {

proof fn concretes_are_those_of_both(
    list: Seq<ConcreteModel>,
    more: Seq<ConcreteModel>,
    count: int,
    id: usize,
)
    requires
        0 <= count <= more.len(),
    ensures
        has_concrete(with_concretes(list, more, count), id) == (has_concrete(list, id)
            || has_concrete(more.take(count), id)),
    decreases count,
{
    if count > 0 {
        concretes_are_those_of_both(list, more, count - 1, id);
        let before = with_concretes(list, more, count - 1);
        let added = more[count - 1];
        let shorter = more.take(count - 1);
        let longer = more.take(count);
        if has_concrete(shorter, id) {
            let k = choose|k: int| 0 <= k < shorter.len() && (#[trigger] shorter[k]).id == id;
            assert(longer[k].id == id);
        }
        if added.id == id {
            assert(longer[count - 1].id == id);
        }
        if has_concrete(longer, id) {
            let k = choose|k: int| 0 <= k < longer.len() && (#[trigger] longer[k]).id == id;
            if k < count - 1 {
                assert(shorter[k].id == id);
            }
        }
        if !has_concrete(before, added.id) {
            let grown = before.push(added);
            if has_concrete(before, id) {
                let k = choose|k: int| 0 <= k < before.len() && (#[trigger] before[k]).id == id;
                assert(grown[k].id == id);
            }
            if added.id == id {
                assert(grown[before.len() as int].id == id);
            }
            if has_concrete(grown, id) {
                let k = choose|k: int| 0 <= k < grown.len() && (#[trigger] grown[k]).id == id;
                if k < before.len() {
                    assert(before[k].id == id);
                }
            }
        }
    }
}

proof fn number_position_is_inside(numbers: Seq<usize>, number: usize, index: nat)
    requires
        index <= numbers.len(),
    ensures
        number_position(numbers, number, index) <= numbers.len(),
    decreases numbers.len() - index,
{
    if index < numbers.len() && numbers[index as int] < number {
        number_position_is_inside(numbers, number, index + 1);
    }
}

proof fn insertion_holds<T>(items: Seq<T>, place: int, item: T, other: T)
    requires
        0 <= place <= items.len(),
    ensures
        items.insert(place, item).contains(other) == (items.contains(other) || other == item),
{
    crate::lists::insertion_holds(items, place, item, other);
}

proof fn added_number_is_there(numbers: Seq<usize>, number: usize, other: usize)
    ensures
        with_number(numbers, number).contains(other) == (numbers.contains(other) || other
            == number),
{
    number_position_is_inside(numbers, number, 0);
    let place = number_position(numbers, number, 0) as int;
    if place < numbers.len() && numbers[place] == number {
        assert(numbers.contains(number));
    } else {
        insertion_holds(numbers, place, number, other);
    }
}

proof fn numbers_are_those_of_both(numbers: Seq<usize>, more: Seq<usize>, count: int, number: usize)
    requires
        0 <= count <= more.len(),
    ensures
        with_numbers(numbers, more, count).contains(number) == (numbers.contains(number)
            || more.take(count).contains(number)),
    decreases count,
{
    if count > 0 {
        numbers_are_those_of_both(numbers, more, count - 1, number);
        added_number_is_there(with_numbers(numbers, more, count - 1), more[count - 1], number);
        let shorter = more.take(count - 1);
        let longer = more.take(count);
        assert(longer =~= shorter.push(more[count - 1]));
        if shorter.contains(number) {
            let k = choose|k: int| 0 <= k < shorter.len() && shorter[k] == number;
            assert(longer[k] == number);
        }
        if more[count - 1] == number {
            assert(longer[count - 1] == number);
        }
        if longer.contains(number) {
            let k = choose|k: int| 0 <= k < longer.len() && longer[k] == number;
            if k < count - 1 {
                assert(shorter[k] == number);
            }
        }
    }
}

proof fn reason_position_is_inside(
    reasons: Seq<UnresolvedReason>,
    reason: UnresolvedReason,
    index: nat,
)
    requires
        index <= reasons.len(),
    ensures
        reason_position(reasons, reason, index) <= reasons.len(),
    decreases reasons.len() - index,
{
    if index < reasons.len() && crate::model::reason_rank(reasons[index as int])
        < crate::model::reason_rank(reason) {
        reason_position_is_inside(reasons, reason, index + 1);
    }
}

/// An added reason is there, and so are those that were.
pub proof fn added_reason_is_there(
    reasons: Seq<UnresolvedReason>,
    reason: UnresolvedReason,
    other: UnresolvedReason,
)
    ensures
        with_reason(reasons, reason).contains(other) == (reasons.contains(other) || other
            == reason),
{
    reason_position_is_inside(reasons, reason, 0);
    let place = reason_position(reasons, reason, 0) as int;
    if place < reasons.len() && reasons[place] == reason {
        assert(reasons.contains(reason));
    } else {
        insertion_holds(reasons, place, reason, other);
    }
}

/// The reasons of two lists are those of either.
pub proof fn reasons_are_those_of_both(
    reasons: Seq<UnresolvedReason>,
    more: Seq<UnresolvedReason>,
    count: int,
    reason: UnresolvedReason,
)
    requires
        0 <= count <= more.len(),
    ensures
        with_reasons(reasons, more, count).contains(reason) == (reasons.contains(reason)
            || more.take(count).contains(reason)),
    decreases count,
{
    if count > 0 {
        reasons_are_those_of_both(reasons, more, count - 1, reason);
        added_reason_is_there(with_reasons(reasons, more, count - 1), more[count - 1], reason);
        let shorter = more.take(count - 1);
        let longer = more.take(count);
        if shorter.contains(reason) {
            let k = choose|k: int| 0 <= k < shorter.len() && shorter[k] == reason;
            assert(longer[k] == reason);
        }
        if more[count - 1] == reason {
            assert(longer[count - 1] == reason);
        }
        if longer.contains(reason) {
            let k = choose|k: int| 0 <= k < longer.len() && longer[k] == reason;
            if k < count - 1 {
                assert(shorter[k] == reason);
            }
        }
    }
}

/// What may be behind one value or another is what may be behind either, and
/// nothing else.
pub proof fn joint_flows_hold_both(
    left: DynModel,
    right: DynModel,
    id: usize,
    parameter: usize,
    reason: UnresolvedReason,
)
    ensures
        has_concrete(joint(left, right).concrete, id) == (has_concrete(left.concrete, id)
            || has_concrete(right.concrete, id)),
        joint(left, right).parameters.contains(parameter) == (left.parameters.contains(parameter)
            || right.parameters.contains(parameter)),
        joint(left, right).unresolved_reasons.contains(reason) == (
        left.unresolved_reasons.contains(reason) || right.unresolved_reasons.contains(reason)),
{
    concretes_are_those_of_both(left.concrete, right.concrete, right.concrete.len() as int, id);
    assert(right.concrete.take(right.concrete.len() as int) =~= right.concrete);
    numbers_are_those_of_both(
        left.parameters,
        right.parameters,
        right.parameters.len() as int,
        parameter,
    );
    assert(right.parameters.take(right.parameters.len() as int) =~= right.parameters);
    reasons_are_those_of_both(
        left.unresolved_reasons,
        right.unresolved_reasons,
        right.unresolved_reasons.len() as int,
        reason,
    );
    assert(right.unresolved_reasons.take(right.unresolved_reasons.len() as int)
        =~= right.unresolved_reasons);
}

/// Nothing behind another value changes nothing.
pub proof fn nothing_changes_nothing(flow: DynModel)
    ensures
        joint(flow, nothing()) == flow,
{
}

/// Whether a type is behind one of the first `count` parameters of a flow, by
/// what is passed for them.
pub open spec fn passed_in(flow: DynModel, arguments: Seq<DynModel>, count: int, id: usize) -> bool {
    exists|k: int|
        0 <= k < count && (#[trigger] flow.parameters[k]) < arguments.len() && has_concrete(
            arguments[flow.parameters[k] as int].concrete,
            id,
        )
}

proof fn types_to(flow: DynModel, arguments: Seq<DynModel>, count: int, id: usize)
    requires
        0 <= count <= flow.parameters.len(),
    ensures
        has_concrete(substituted_to(flow, arguments, count).concrete, id) == (has_concrete(
            flow.concrete,
            id,
        ) || passed_in(flow, arguments, count, id)),
    decreases count,
{
    if count > 0 {
        types_to(flow, arguments, count - 1, id);
        let before = substituted_to(flow, arguments, count - 1);
        let parameter = flow.parameters[count - 1] as int;
        if passed_in(flow, arguments, count - 1, id) {
            let k = choose|k: int|
                0 <= k < count - 1 && (#[trigger] flow.parameters[k]) < arguments.len()
                    && has_concrete(arguments[flow.parameters[k] as int].concrete, id);
            assert(passed_in(flow, arguments, count, id));
        }
        if parameter < arguments.len() {
            joint_flows_hold_both(
                before,
                arguments[parameter],
                id,
                0,
                UnresolvedReason::AnalysisLimit,
            );
        }
        if passed_in(flow, arguments, count, id) {
            let k = choose|k: int|
                0 <= k < count && (#[trigger] flow.parameters[k]) < arguments.len()
                    && has_concrete(arguments[flow.parameters[k] as int].concrete, id);
            if k < count - 1 {
                assert(passed_in(flow, arguments, count - 1, id));
            }
        }
    }
}

/// The types behind a value of a function, for one caller, are those that the
/// function itself puts there and those that this caller passes: what another
/// caller passes is not among them.
pub proof fn callers_do_not_mix(flow: DynModel, arguments: Seq<DynModel>, id: usize)
    ensures
        has_concrete(substituted(flow, arguments).concrete, id) == (has_concrete(
            flow.concrete,
            id,
        ) || passed_in(flow, arguments, flow.parameters.len() as int, id)),
{
    types_to(flow, arguments, flow.parameters.len() as int, id);
}

} // verus!
