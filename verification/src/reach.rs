//! What can be reached along the edges of a finite graph.
use crate::entries::flagged;
use vstd::prelude::*;

verus! {

/// Whether a list of nodes follows edges.
pub open spec fn is_walk(edge: spec_fn(int, int) -> bool, walk: Seq<int>) -> bool {
    walk.len() > 0 && forall|k: int|
        0 <= k < walk.len() - 1 ==> edge(#[trigger] walk[k], walk[k + 1])
}

/// Whether edges lead from one node to another, in any number of steps.
pub open spec fn reaches(edge: spec_fn(int, int) -> bool, from: int, to: int) -> bool {
    exists|walk: Seq<int>| #[trigger] is_walk(edge, walk) && walk[0] == from && walk.last() == to
}

/// The nodes that can be reached from a node.
pub open spec fn reach_set(edge: spec_fn(int, int) -> bool, from: int) -> Set<int> {
    Set::new(|to: int| reaches(edge, from, to))
}

/// The edges, turned round.
pub open spec fn flipped(edge: spec_fn(int, int) -> bool) -> spec_fn(int, int) -> bool {
    |from: int, to: int| edge(to, from)
}

/// Every node reaches itself.
pub proof fn reaches_itself(edge: spec_fn(int, int) -> bool, node: int)
    ensures
        reaches(edge, node, node),
{
    assert(is_walk(edge, seq![node]));
    assert(seq![node].last() == node);
}

/// One more edge can be followed.
pub proof fn reaches_one_further(
    edge: spec_fn(int, int) -> bool,
    from: int,
    middle: int,
    to: int,
)
    requires
        reaches(edge, from, middle),
        edge(middle, to),
    ensures
        reaches(edge, from, to),
{
    let walk = choose|walk: Seq<int>| #[trigger]
        is_walk(edge, walk) && walk[0] == from && walk.last() == middle;
    let longer = walk.push(to);
    assert forall|k: int| 0 <= k < longer.len() - 1 implies edge(
        #[trigger] longer[k],
        longer[k + 1],
    ) by {
        if k < walk.len() - 1 {
            assert(edge(walk[k], walk[k + 1]));
        }
    }
    assert(is_walk(edge, longer));
    assert(longer.last() == to);
}

/// Whether edges do not lead out of a set.
pub open spec fn is_closed(edge: spec_fn(int, int) -> bool, set: Set<int>) -> bool {
    forall|from: int, to: int| #[trigger]
        edge(from, to) && set.contains(from) ==> set.contains(to)
}

/// What is reached from a closed set is in it.
pub proof fn closed_sets_hold_their_reach(
    edge: spec_fn(int, int) -> bool,
    set: Set<int>,
    from: int,
    to: int,
)
    requires
        is_closed(edge, set),
        set.contains(from),
        reaches(edge, from, to),
    ensures
        set.contains(to),
{
    let walk = choose|walk: Seq<int>| #[trigger]
        is_walk(edge, walk) && walk[0] == from && walk.last() == to;
    walks_stay_inside(edge, set, walk, (walk.len() - 1) as nat);
}

proof fn walks_stay_inside(
    edge: spec_fn(int, int) -> bool,
    set: Set<int>,
    walk: Seq<int>,
    index: nat,
)
    requires
        is_closed(edge, set),
        is_walk(edge, walk),
        set.contains(walk[0]),
        index < walk.len(),
    ensures
        set.contains(walk[index as int]),
    decreases index,
{
    if index > 0 {
        walks_stay_inside(edge, set, walk, (index - 1) as nat);
        assert(edge(walk[index - 1], walk[index - 1 + 1]));
    }
}

/// Turning all edges round turns what reaches what round.
pub proof fn flipped_edges_reach_back(edge: spec_fn(int, int) -> bool, from: int, to: int)
    ensures
        reaches(flipped(edge), to, from) == reaches(edge, from, to),
{
    if reaches(edge, from, to) {
        walk_back(edge, flipped(edge), from, to);
    }
    if reaches(flipped(edge), to, from) {
        walk_back(flipped(edge), edge, to, from);
    }
}

proof fn walk_back(
    edge: spec_fn(int, int) -> bool,
    back: spec_fn(int, int) -> bool,
    from: int,
    to: int,
)
    requires
        reaches(edge, from, to),
        forall|i: int, j: int| #[trigger] edge(i, j) ==> back(j, i),
    ensures
        reaches(back, to, from),
{
    let walk = choose|walk: Seq<int>| #[trigger]
        is_walk(edge, walk) && walk[0] == from && walk.last() == to;
    let turned = walk.reverse();
    assert forall|k: int| 0 <= k < turned.len() - 1 implies back(
        #[trigger] turned[k],
        turned[k + 1],
    ) by {
        let m = walk.len() - 2 - k;
        assert(edge(walk[m], walk[m + 1]));
    }
    assert(is_walk(back, turned));
    assert(turned[0] == to);
    assert(turned.last() == from);
}

/// Whether a table of edges leads from one node to another in one step.
pub open spec fn adjacent(table: Seq<Vec<usize>>, from: int, to: int) -> bool {
    0 <= from < table.len() && exists|k: int|
        0 <= k < table[from]@.len() && #[trigger] table[from]@[k] == to
}

/// The edges of a table.
pub open spec fn table_edges(table: Seq<Vec<usize>>) -> spec_fn(int, int) -> bool {
    |from: int, to: int| adjacent(table, from, to)
}

/// Whether a table of edges names its own nodes only.
pub open spec fn is_table(table: Seq<Vec<usize>>) -> bool {
    forall|i: int, k: int|
        0 <= i < table.len() && 0 <= k < table[i]@.len() ==> #[trigger] table[i]@[k] < table.len()
}

/// How many of the first `count` nodes are not flagged.
pub open spec fn open_count(flags: Seq<bool>, count: nat) -> nat
    decreases count,
{
    if count == 0 {
        0
    } else {
        open_count(flags, (count - 1) as nat) + if flags[count - 1] {
            0nat
        } else {
            1
        }
    }
}

proof fn flagging_lowers_the_open_count(flags: Seq<bool>, index: int, count: nat)
    requires
        0 <= index < flags.len(),
        !flags[index],
        count <= flags.len(),
    ensures
        open_count(flags.update(index, true), count) + (if index < count {
            1int
        } else {
            0
        }) == open_count(flags, count),
    decreases count,
{
    if count > 0 {
        flagging_lowers_the_open_count(flags, index, (count - 1) as nat);
    }
}

/// Whether a node is in a list.
pub open spec fn is_listed(nodes: Seq<usize>, node: int) -> bool {
    exists|k: int| 0 <= k < nodes.len() && #[trigger] nodes[k] == node
}

/// Flags what can be reached from a node.
#[verifier::rlimit(30)]
pub fn mark_reachable(root: usize, table: &Vec<Vec<usize>>, covered: &mut Vec<bool>)
    requires
        is_table(table@),
        root < table@.len(),
        old(covered)@.len() == table@.len(),
        is_closed(table_edges(table@), flagged(old(covered)@)),
    ensures
        final(covered)@.len() == table@.len(),
        is_closed(table_edges(table@), flagged(final(covered)@)),
        flagged(final(covered)@) == flagged(old(covered)@).union(
            reach_set(table_edges(table@), root as int),
        ),
{
    let ghost edge = table_edges(table@);
    let ghost before = flagged(covered@);
    let mut pending: Vec<usize> = Vec::new();
    pending.push(root);
    proof {
        reaches_itself(edge, root as int);
        assert(pending@[0] == root);
    }
    while pending.len() > 0
        invariant
            is_table(table@),
            edge == table_edges(table@),
            covered@.len() == table@.len(),
            is_closed(edge, before),
            forall|j: int| before.contains(j) ==> flagged(covered@).contains(j),
            forall|j: int| #[trigger]
                flagged(covered@).contains(j) ==> before.contains(j) || reaches(
                    edge,
                    root as int,
                    j,
                ),
            forall|k: int|
                0 <= k < pending@.len() ==> (#[trigger] pending@[k]) < table@.len() && reaches(
                    edge,
                    root as int,
                    pending@[k] as int,
                ),
            forall|from: int, to: int| #[trigger]
                edge(from, to) && flagged(covered@).contains(from) ==> flagged(covered@).contains(
                    to,
                ) || is_listed(pending@, to),
            flagged(covered@).contains(root as int) || is_listed(pending@, root as int),
        decreases open_count(covered@, covered@.len()), pending@.len(),
    {
        let ghost waiting = pending@;
        let node: usize = match pending.pop() {
            Some(node) => node,
            None => 0,
        };
        proof {
            assert(waiting.last() == node);
            assert(pending@ =~= waiting.drop_last());
            assert forall|to: int| #[trigger] is_listed(waiting, to) && to != node implies is_listed(
                pending@,
                to,
            ) by {
                let k = choose|k: int| 0 <= k < waiting.len() && #[trigger] waiting[k] == to;
                assert(pending@[k] == to);
            }
        }
        if covered[node] {
            proof {
                assert(flagged(covered@).contains(node as int));
            }
            continue ;
        }
        let ghost flags = covered@;
        covered.set(node, true);
        proof {
            flagging_lowers_the_open_count(flags, node as int, flags.len());
            assert(flagged(covered@) =~= flagged(flags).insert(node as int));
        }
        let next = &table[node];
        let ghost kept = pending@;
        let mut index: usize = 0;
        while index < next.len()
            invariant
                index <= next@.len(),
                node < table@.len(),
                *next == table@[node as int],
                is_table(table@),
                edge == table_edges(table@),
                reaches(edge, root as int, node as int),
                forall|k: int|
                    0 <= k < pending@.len() ==> (#[trigger] pending@[k]) < table@.len() && reaches(
                        edge,
                        root as int,
                        pending@[k] as int,
                    ),
                pending@.len() == kept.len() + index,
                forall|k: int| 0 <= k < kept.len() ==> pending@[k] == #[trigger] kept[k],
                forall|k: int|
                    0 <= k < index ==> pending@[kept.len() + k] == #[trigger] next@[k],
            decreases next@.len() - index,
        {
            let target: usize = next[index];
            proof {
                assert(table@[node as int]@[index as int] == target);
                assert(adjacent(table@, node as int, target as int));
                assert(edge(node as int, target as int));
                reaches_one_further(edge, root as int, node as int, target as int);
            }
            pending.push(target);
            index += 1;
        }
        proof {
            assert forall|from: int, to: int| #[trigger]
                edge(from, to) && flagged(covered@).contains(from) implies flagged(
                covered@,
            ).contains(to) || is_listed(pending@, to) by {
                if from == node {
                    let k = choose|k: int|
                        0 <= k < table@[from]@.len() && #[trigger] table@[from]@[k] == to;
                    assert(next@[k] == to);
                    assert(pending@[kept.len() + k] == to);
                } else {
                    assert(flagged(flags).contains(from));
                    if !flagged(flags).contains(to) && to != node {
                        assert(is_listed(waiting, to));
                        assert(is_listed(kept, to));
                        let k = choose|k: int| 0 <= k < kept.len() && #[trigger] kept[k] == to;
                        assert(pending@[k] == to);
                    }
                }
            }
            if !flagged(covered@).contains(root as int) {
                assert(is_listed(waiting, root as int));
                assert(is_listed(kept, root as int));
                let k = choose|k: int| 0 <= k < kept.len() && #[trigger] kept[k] == root;
                assert(pending@[k] == root);
            }
        }
    }
    proof {
        let after = flagged(covered@);
        assert(is_closed(edge, after));
        assert forall|j: int| after.contains(j) == before.union(
            reach_set(edge, root as int),
        ).contains(j) by {
            if reaches(edge, root as int, j) {
                closed_sets_hold_their_reach(edge, after, root as int, j);
            }
        }
        assert(after =~= before.union(reach_set(edge, root as int)));
    }
}

/// The table with all edges turned round.
#[verifier::rlimit(30)]
pub fn flip_table(table: &Vec<Vec<usize>>) -> (result: Vec<Vec<usize>>)
    requires
        is_table(table@),
    ensures
        is_table(result@),
        result@.len() == table@.len(),
        forall|i: int, j: int|
            0 <= i < table@.len() && 0 <= j < table@.len() ==> adjacent(result@, j, i)
                == #[trigger] adjacent(table@, i, j),
{
    let mut result: Vec<Vec<usize>> = Vec::new();
    let mut count: usize = 0;
    while count < table.len()
        invariant
            count <= table@.len(),
            result@.len() == count,
            forall|j: int| 0 <= j < count ==> (#[trigger] result@[j])@.len() == 0,
        decreases table@.len() - count,
    {
        result.push(Vec::new());
        count += 1;
    }
    let mut from: usize = 0;
    proof {
        assert forall|j: int, i: int| !#[trigger] adjacent(result@, j, i) by {}
    }
    while from < table.len()
        invariant
            from <= table@.len(),
            is_table(table@),
            result@.len() == table@.len(),
            is_table(result@),
            forall|j: int, i: int|
                0 <= j < table@.len() ==> #[trigger] adjacent(result@, j, i) == (i < from
                    && adjacent(table@, i, j)),
        decreases table@.len() - from,
    {
        let row = &table[from];
        let mut index: usize = 0;
        while index < row.len()
            invariant
                index <= row@.len(),
                from < table@.len(),
                *row == table@[from as int],
                is_table(table@),
                result@.len() == table@.len(),
                is_table(result@),
                forall|j: int, i: int|
                    0 <= j < table@.len() ==> #[trigger] adjacent(result@, j, i) == ((i < from
                        && adjacent(table@, i, j)) || (i == from && exists|k: int|
                        0 <= k < index && #[trigger] row@[k] == j)),
            decreases row@.len() - index,
        {
            let to: usize = row[index];
            proof {
                assert(table@[from as int]@[index as int] < table@.len());
            }
            let ghost before = result@;
            result[to].push(from);
            proof {
                assert(result@[to as int]@ =~= before[to as int]@.push(from));
                assert forall|j: int| 0 <= j < table@.len() && j != to implies (
                #[trigger] result@[j]) == before[j] by {}
                assert forall|j: int, i: int| 0 <= j < table@.len() implies #[trigger] adjacent(
                    result@,
                    j,
                    i,
                ) == (adjacent(before, j, i) || (j == to && i == from)) by {
                    if j == to {
                        let old_row = before[j]@;
                        let new_row = result@[j]@;
                        if adjacent(before, j, i) {
                            let k = choose|k: int|
                                0 <= k < old_row.len() && #[trigger] before[j]@[k] == i;
                            assert(new_row[k] == i);
                        }
                        if i == from {
                            assert(new_row[old_row.len() as int] == i);
                        }
                        if adjacent(result@, j, i) && i != from {
                            let k = choose|k: int|
                                0 <= k < new_row.len() && #[trigger] result@[j]@[k] == i;
                            assert(before[j]@[k] == i);
                        }
                    } else {
                        assert(result@[j] == before[j]);
                    }
                }
                assert forall|i: int, k: int|
                    0 <= i < result@.len() && 0 <= k < result@[i]@.len() implies
                    #[trigger] result@[i]@[k] < result@.len() by {
                    if i == to {
                        if k < before[i]@.len() {
                            assert(before[i]@[k] < before.len());
                        }
                    } else {
                        assert(before[i]@[k] < before.len());
                    }
                }
                assert forall|j: int, i: int| 0 <= j < table@.len() implies #[trigger] adjacent(
                    result@,
                    j,
                    i,
                ) == ((i < from && adjacent(table@, i, j)) || (i == from && exists|k: int|
                    0 <= k < index + 1 && #[trigger] row@[k] == j)) by {
                    if i == from && j == to {
                        assert(row@[index as int] == j);
                    }
                    if i == from && (exists|k: int| 0 <= k < index + 1 && #[trigger] row@[k] == j)
                        && j != to {
                        let k = choose|k: int| 0 <= k < index + 1 && #[trigger] row@[k] == j;
                        assert(k < index);
                    }
                    if i == from && (exists|k: int| 0 <= k < index && #[trigger] row@[k] == j) {
                        let k = choose|k: int| 0 <= k < index && #[trigger] row@[k] == j;
                        assert(row@[k] == j && k < index + 1);
                    }
                }
            }
            index += 1;
        }
        proof {
            assert forall|j: int, i: int| 0 <= j < table@.len() implies #[trigger] adjacent(
                result@,
                j,
                i,
            ) == (i < from + 1 && adjacent(table@, i, j)) by {
                if i == from {
                    if adjacent(table@, i, j) {
                        let k = choose|k: int|
                            0 <= k < table@[i]@.len() && #[trigger] table@[i]@[k] == j;
                        assert(row@[k] == j);
                    }
                    if exists|k: int| 0 <= k < index && #[trigger] row@[k] == j {
                        let k = choose|k: int| 0 <= k < index && #[trigger] row@[k] == j;
                        assert(table@[i]@[k] == j);
                    }
                }
            }
        }
        from += 1;
    }
    result
}

} // verus!
