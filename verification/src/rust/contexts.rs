//! The contexts that functions are specialized for: one value for each
//! parameter. There are finitely many of them, so that specialization ends.
use vstd::prelude::*;

verus! {

/// Whether an item is in one of two lists, or in both.
pub proof fn in_either<T>(left: Seq<T>, right: Seq<T>, item: T)
    ensures
        (left + right).contains(item) == (left.contains(item) || right.contains(item)),
{
    let sum = left + right;
    if left.contains(item) {
        let place = choose|place: int| 0 <= place < left.len() && left[place] == item;
        assert(sum[place] == item);
    }
    if right.contains(item) {
        let place = choose|place: int| 0 <= place < right.len() && right[place] == item;
        assert(sum[left.len() + place] == item);
    }
    if sum.contains(item) {
        let place = choose|place: int| 0 <= place < sum.len() && sum[place] == item;
        if place < left.len() {
            assert(left[place] == item);
        } else {
            assert(right[place - left.len()] == item);
        }
    }
}

/// Each of the first `count` lists with each of the items behind it.
pub open spec fn extended<T>(lists: Seq<Seq<T>>, items: Seq<T>, count: int) -> Seq<Seq<T>>
    decreases count,
{
    if count <= 0 {
        Seq::empty()
    } else {
        extended(lists, items, count - 1) + items.map_values(|item: T| lists[count - 1].push(item))
    }
}

/// Each list is extended with each item.
pub proof fn extended_lists_are_there<T>(
    lists: Seq<Seq<T>>,
    items: Seq<T>,
    count: int,
    list: Seq<T>,
    item: T,
)
    requires
        0 <= count <= lists.len(),
        exists|place: int| 0 <= place < count && lists[place] == list,
        items.contains(item),
    ensures
        extended(lists, items, count).contains(list.push(item)),
    decreases count,
{
    let place = choose|place: int| 0 <= place < count && lists[place] == list;
    let last = items.map_values(|item: T| lists[count - 1].push(item));
    in_either(extended(lists, items, count - 1), last, list.push(item));
    if place == count - 1 {
        let spot = choose|spot: int| 0 <= spot < items.len() && items[spot] == item;
        assert(last[spot] == list.push(item));
    } else {
        extended_lists_are_there(lists, items, count - 1, list, item);
    }
}

/// All lists of `length` of the items.
pub open spec fn lists_of<T>(items: Seq<T>, length: nat) -> Seq<Seq<T>>
    decreases length,
{
    if length == 0 {
        seq![Seq::empty()]
    } else {
        let shorter = lists_of(items, (length - 1) as nat);
        extended(shorter, items, shorter.len() as int)
    }
}

/// A list of the items is among all lists of its length.
pub proof fn lists_are_there<T>(items: Seq<T>, list: Seq<T>)
    requires
        forall|index: int| 0 <= index < list.len() ==> items.contains(#[trigger] list[index]),
    ensures
        lists_of(items, list.len()).contains(list),
    decreases list.len(),
{
    if list.len() == 0 {
        assert(lists_of(items, 0)[0] =~= list);
    } else {
        let shorter = list.drop_last();
        assert forall|index: int| 0 <= index < shorter.len() implies items.contains(
            #[trigger] shorter[index],
        ) by {
            assert(shorter[index] == list[index]);
        }
        lists_are_there(items, shorter);
        let lists = lists_of(items, shorter.len());
        assert(items.contains(list[list.len() - 1]));
        extended_lists_are_there(lists, items, lists.len() as int, shorter, list.last());
        assert(shorter.push(list.last()) =~= list);
    }
}

/// All pairs of one of the first `count` functions and a context for it;
/// `lengths` says how many parameters each function has.
pub open spec fn all_contexts<T>(items: Seq<T>, lengths: Seq<nat>, count: int) -> Seq<
    (int, Seq<T>),
>
    decreases count,
{
    if count <= 0 {
        Seq::empty()
    } else {
        all_contexts(items, lengths, count - 1) + lists_of(items, lengths[count - 1]).map_values(
            |context: Seq<T>| (count - 1, context),
        )
    }
}

/// A function with a context of the items is among all of them.
pub proof fn contexts_are_there<T>(
    items: Seq<T>,
    lengths: Seq<nat>,
    count: int,
    function: int,
    context: Seq<T>,
)
    requires
        0 <= function < count <= lengths.len(),
        context.len() == lengths[function],
        forall|index: int| 0 <= index < context.len() ==> items.contains(#[trigger] context[index]),
    ensures
        all_contexts(items, lengths, count).contains((function, context)),
    decreases count,
{
    let last = lists_of(items, lengths[count - 1]).map_values(
        |context: Seq<T>| (count - 1, context),
    );
    in_either(all_contexts(items, lengths, count - 1), last, (function, context));
    if function == count - 1 {
        lists_are_there(items, context);
        let lists = lists_of(items, lengths[count - 1]);
        let place = choose|place: int| 0 <= place < lists.len() && lists[place] == context;
        assert(last[place] == (function, context));
    } else {
        contexts_are_there(items, lengths, count - 1, function, context);
    }
}

/// How many of the first `count` pairs have a key that was not visited.
pub open spec fn unvisited<T>(
    pairs: Seq<(int, Seq<T>)>,
    key: spec_fn(int, Seq<T>) -> Seq<char>,
    visited: Seq<Seq<char>>,
    count: int,
) -> nat
    decreases count,
{
    if count <= 0 {
        0
    } else {
        unvisited(pairs, key, visited, count - 1) + if visited.contains(
            key(pairs[count - 1].0, pairs[count - 1].1),
        ) {
            0nat
        } else {
            1nat
        }
    }
}

/// A visit to a pair whose key is new leaves fewer to visit.
pub proof fn visits_leave_fewer<T>(
    pairs: Seq<(int, Seq<T>)>,
    key: spec_fn(int, Seq<T>) -> Seq<char>,
    visited: Seq<Seq<char>>,
    new: Seq<char>,
    count: int,
)
    requires
        0 <= count <= pairs.len(),
    ensures
        unvisited(pairs, key, visited.push(new), count) <= unvisited(pairs, key, visited, count),
        (exists|place: int|
            0 <= place < count && key((#[trigger] pairs[place]).0, pairs[place].1) == new
                && !visited.contains(new)) ==> unvisited(pairs, key, visited.push(new), count)
            < unvisited(pairs, key, visited, count),
    decreases count,
{
    if count > 0 {
        visits_leave_fewer(pairs, key, visited, new, count - 1);
        let last = key(pairs[count - 1].0, pairs[count - 1].1);
        let after = visited.push(new);
        if visited.contains(last) {
            let place = choose|place: int| 0 <= place < visited.len() && visited[place] == last;
            assert(after[place] == last);
        }
        if last == new {
            assert(after[visited.len() as int] == last);
        }
    }
}

/// How many of the first `count` functions are not covered.
pub open spec fn uncovered(covered: Seq<usize>, count: int) -> nat
    decreases count,
{
    if count <= 0 {
        0
    } else {
        uncovered(covered, count - 1) + if covered.contains((count - 1) as usize) {
            0nat
        } else {
            1nat
        }
    }
}

/// Covering a function leaves fewer that are not covered.
pub proof fn covering_leaves_fewer(covered: Seq<usize>, function: usize, count: int)
    ensures
        uncovered(covered.push(function), count) <= uncovered(covered, count),
        function < count <= usize::MAX && !covered.contains(function) ==> uncovered(
            covered.push(function),
            count,
        ) < uncovered(covered, count),
    decreases count,
{
    if count > 0 {
        covering_leaves_fewer(covered, function, count - 1);
        let last = (count - 1) as usize;
        let after = covered.push(function);
        if covered.contains(last) {
            let place = choose|place: int| 0 <= place < covered.len() && covered[place] == last;
            assert(after[place] == last);
        }
        if last == function {
            assert(after[covered.len() as int] == last);
        }
    }
}

} // verus!
