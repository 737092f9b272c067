//! Where call trees begin, and which functions lead to others.
use crate::entries::{flagged, kept_ids, places_in_file};
use crate::files::{optional_file, selected, selects, FileModel, SourceFile};
use crate::graph::{
    function_at, function_from_finds, function_ids, has_function, in_order, targets, GraphModel,
    ProgramGraph,
};
use crate::model::{
    symbol_less, symbol_models, symbol_order_laws, CallTarget, FunctionInfo, FunctionModel,
    SymbolId, SymbolModel,
};
use crate::paths::{path_less, path_order_laws, same_place};
use crate::reach::{
    adjacent, closed_sets_hold_their_reach, flip_table, flipped, flipped_edges_reach_back,
    is_closed, is_listed, is_table, mark_reachable, open_count, reaches, reaches_itself,
    table_edges,
};
use crate::sets::has_symbol;
use vstd::prelude::*;

verus! {

/// Whether a function has a call that may reach a symbol.
pub open spec fn may_call(
    graph: GraphModel,
    function: FunctionModel,
    target: SymbolModel,
    count: int,
) -> bool {
    exists|c: int|
        0 <= c < count && targets(graph, function.id, #[trigger] function.calls[c]).contains(target)
}

/// Whether, of the functions at the places `within`, the one at `from` has a
/// call that may reach the one at `to`.
pub open spec fn calls(graph: GraphModel, within: Set<int>, from: int, to: int) -> bool {
    within.contains(from) && within.contains(to) && may_call(
        graph,
        graph.functions[from],
        graph.functions[to].id,
        graph.functions[from].calls.len() as int,
    )
}

/// The calls among the functions at some places.
pub open spec fn call_edges(graph: GraphModel, within: Set<int>) -> spec_fn(int, int) -> bool {
    |from: int, to: int| calls(graph, within, from, to)
}

/// In a graph in order, no two functions have one symbol.
pub proof fn symbols_are_distinct(graph: GraphModel, i: int, j: int)
    requires
        in_order(graph),
        0 <= i < graph.functions.len(),
        0 <= j < graph.functions.len(),
        graph.functions[i].id == graph.functions[j].id,
    ensures
        i == j,
{
    let ids = function_ids(graph.functions);
    assert(ids[i] == graph.functions[i].id);
    assert(ids[j] == graph.functions[j].id);
    symbol_order_laws(ids[i], ids[j], ids[i]);
}

/// Whether one function stands before another in the source: by file, line,
/// column and symbol.
pub open spec fn stands_before(left: FunctionModel, right: FunctionModel) -> bool {
    if !same_place(left.span.file, right.span.file) {
        path_less(left.span.file, right.span.file)
    } else if left.span.start_line != right.span.start_line {
        left.span.start_line < right.span.start_line
    } else if left.span.start_column != right.span.start_column {
        left.span.start_column < right.span.start_column
    } else {
        symbol_less(left.id, right.id)
    }
}

/// Standing before is a strict order that tells functions of different
/// symbols apart.
pub proof fn stands_before_laws(left: FunctionModel, right: FunctionModel, third: FunctionModel)
    ensures
        !stands_before(left, left),
        stands_before(left, right) ==> !stands_before(right, left),
        stands_before(left, right) || stands_before(right, left) || left.id == right.id,
        stands_before(left, right) && stands_before(right, third) ==> stands_before(left, third),
{
    path_order_laws(left.span.file, right.span.file, third.span.file);
    path_order_laws(left.span.file, third.span.file, right.span.file);
    symbol_order_laws(left.id, right.id, third.id);
    let (a, b, c) = (
        crate::paths::path_key(left.span.file),
        crate::paths::path_key(right.span.file),
        crate::paths::path_key(third.span.file),
    );
    crate::text::list_order_laws(a, b, c);
    crate::text::list_order_laws(b, c, a);
    crate::text::list_order_laws(a, c, b);
}

fn is_before(left: &FunctionInfo, right: &FunctionInfo) -> (result: bool)
    ensures
        result == stands_before(left@, right@),
{
    if !left.span.file.same(&right.span.file) {
        return left.span.file.before(&right.span.file);
    }
    if left.span.start_line != right.span.start_line {
        return left.span.start_line < right.span.start_line;
    }
    if left.span.start_column != right.span.start_column {
        return left.span.start_column < right.span.start_column;
    }
    left.id.before(&right.id)
}

/// The order in which places are tried as roots: as the functions stand in the
/// source, or as their symbols are ordered.
pub open spec fn comes_earlier(graph: GraphModel, by_source: bool, i: int, j: int) -> bool {
    if by_source {
        stands_before(graph.functions[i], graph.functions[j])
    } else {
        i < j
    }
}

/// Whether no function at the places `within` calls the one at `place`.
pub open spec fn is_natural_root(graph: GraphModel, within: Set<int>, place: int) -> bool {
    within.contains(place) && forall|caller: int| !#[trigger] calls(graph, within, caller, place)
}

/// Whether a root reaches a function that comes later as a candidate.
pub open spec fn root_covers(
    graph: GraphModel,
    within: Set<int>,
    by_source: bool,
    root: int,
    place: int,
) -> bool {
    (is_natural_root(graph, within, root) || comes_earlier(graph, by_source, root, place))
        && reaches(call_edges(graph, within), root, place)
}

/// Whether places are the roots of the functions at the places `within`: those
/// that are not called, and of the others each one that no root reaches which
/// is not called or comes earlier.
pub open spec fn is_root_set(
    graph: GraphModel,
    within: Set<int>,
    by_source: bool,
    roots: Set<int>,
) -> bool {
    forall|place: int|
        #[trigger] roots.contains(place) <==> within.contains(place) && (is_natural_root(
            graph,
            within,
            place,
        ) || !exists|root: int|
            roots.contains(root) && #[trigger] root_covers(graph, within, by_source, root, place))
}

/// Every function is reached from some root.
pub proof fn roots_reach_everything(
    graph: GraphModel,
    within: Set<int>,
    by_source: bool,
    roots: Set<int>,
    place: int,
)
    requires
        is_root_set(graph, within, by_source, roots),
        within.contains(place),
    ensures
        exists|root: int|
            roots.contains(root) && #[trigger] reaches(call_edges(graph, within), root, place),
{
    let edge = call_edges(graph, within);
    if roots.contains(place) {
        reaches_itself(edge, place);
    } else {
        let root = choose|root: int|
            roots.contains(root) && #[trigger] root_covers(graph, within, by_source, root, place);
        assert(reaches(edge, root, place));
    }
}

/// All places of a graph.
pub open spec fn all_places(graph: GraphModel) -> Set<int> {
    Set::new(|k: int| 0 <= k < graph.functions.len())
}

impl ProgramGraph {
    /// The places that calls of the function at `place` may reach.
    #[verifier::rlimit(30)]
    fn call_row(&self, place: usize, within: &Vec<bool>) -> (row: Vec<usize>)
        requires
            self.well_formed(),
            within@.len() == self.functions@.len(),
            place < self.functions@.len(),
            within@[place as int],
        ensures
            forall|k: int| 0 <= k < row@.len() ==> #[trigger] row@[k] < self.functions@.len(),
            forall|to: int| #[trigger]
                is_listed(row@, to) == calls(self@, flagged(within@), place as int, to),
    {
        let function = &self.functions[place];
        let ghost model = self@.functions[place as int];
        let mut row: Vec<usize> = Vec::new();
        let mut c: usize = 0;
        while c < function.calls.len()
            invariant
                self.well_formed(),
                within@.len() == self.functions@.len(),
                c <= function.calls@.len(),
                model == function@,
                forall|k: int| 0 <= k < row@.len() ==> #[trigger] row@[k] < self.functions@.len(),
                forall|to: int| #[trigger]
                    is_listed(row@, to) == (flagged(within@).contains(to) && may_call(
                        self@,
                        model,
                        self@.functions[to].id,
                        c as int,
                    )),
            decreases function.calls@.len() - c,
        {
            let found = self.call_targets(&function.id, &function.calls[c]);
            let ghost reached = symbol_models(found@);
            let ghost before = row@;
            proof {
                assert(model.calls[c as int] == function.calls@[c as int]@);
                assert(reached == targets(self@, model.id, model.calls[c as int]));
            }
            let mut t: usize = 0;
            while t < found.len()
                invariant
                    self.well_formed(),
                    within@.len() == self.functions@.len(),
                    t <= found@.len(),
                    reached == symbol_models(found@),
                    forall|k: int|
                        0 <= k < row@.len() ==> #[trigger] row@[k] < self.functions@.len(),
                    forall|to: int| #[trigger]
                        is_listed(row@, to) == (is_listed(before, to) || (flagged(within@).contains(
                            to,
                        ) && reached.take(t as int).contains(self@.functions[to].id))),
                decreases found@.len() - t,
            {
                let ghost taken = reached.take(t as int);
                let ghost next = reached.take(t + 1);
                proof {
                    assert(reached[t as int] == found@[t as int]@);
                    assert(next =~= taken.push(reached[t as int]));
                    assert forall|id: SymbolModel| #[trigger] next.contains(id) == (taken.contains(
                        id,
                    ) || id == reached[t as int]) by {
                        if taken.contains(id) {
                            let k = choose|k: int| 0 <= k < taken.len() && taken[k] == id;
                            assert(next[k] == id);
                        }
                        assert(next[t as int] == reached[t as int]);
                        if next.contains(id) && id != reached[t as int] {
                            let k = choose|k: int| 0 <= k < next.len() && next[k] == id;
                            assert(taken[k] == id);
                        }
                    }
                    function_from_finds(self@.functions, reached[t as int], 0);
                }
                let place_of = self.find(&found[t]);
                let ghost listed = row@;
                if let Some(to) = place_of {
                    if within[to] {
                        row.push(to);
                        proof {
                            assert(row@[listed.len() as int] == to);
                        }
                    }
                }
                proof {
                    assert forall|to: int| #[trigger] is_listed(row@, to) == (is_listed(
                        listed,
                        to,
                    ) || (row@.len() > listed.len() && to == row@.last())) by {
                        if is_listed(listed, to) {
                            let k = choose|k: int|
                                0 <= k < listed.len() && #[trigger] listed[k] == to;
                            assert(row@[k] == to);
                        }
                        if is_listed(row@, to) && !is_listed(listed, to) {
                            let k = choose|k: int| 0 <= k < row@.len() && #[trigger] row@[k] == to;
                            if k < listed.len() {
                                assert(listed[k] == to);
                            }
                        }
                        if row@.len() > listed.len() && to == row@.last() {
                            assert(row@[row@.len() - 1] == to);
                        }
                    }
                    assert forall|to: int| #[trigger] is_listed(row@, to) == (is_listed(before, to)
                        || (flagged(within@).contains(to) && next.contains(
                        self@.functions[to].id,
                    ))) by {
                        if flagged(within@).contains(to) && self@.functions[to].id
                            == reached[t as int] {
                            symbols_are_distinct(
                                self@,
                                to,
                                function_at(self@, reached[t as int])->0 as int,
                            );
                        }
                    }
                }
                t += 1;
            }
            proof {
                assert(reached.take(found@.len() as int) =~= reached);
                assert forall|to: int| #[trigger] is_listed(row@, to) == (flagged(
                    within@,
                ).contains(to) && may_call(
                    self@,
                    model,
                    self@.functions[to].id,
                    c + 1,
                )) by {
                    let id = self@.functions[to].id;
                    if may_call(self@, model, id, c as int) {
                        let k = choose|k: int|
                            0 <= k < c && targets(
                                self@,
                                model.id,
                                #[trigger] model.calls[k],
                            ).contains(id);
                        assert(targets(self@, model.id, model.calls[k]).contains(id));
                    }
                    if reached.contains(id) {
                        assert(targets(self@, model.id, model.calls[c as int]).contains(id));
                    }
                    if may_call(self@, model, id, c + 1) && !may_call(self@, model, id, c as int) {
                        let k = choose|k: int|
                            0 <= k < c + 1 && targets(
                                self@,
                                model.id,
                                #[trigger] model.calls[k],
                            ).contains(id);
                        assert(k == c);
                    }
                }
            }
            c += 1;
        }
        row
    }

    /// The calls among the functions that are flagged.
    fn call_table(&self, within: &Vec<bool>) -> (table: Vec<Vec<usize>>)
        requires
            self.well_formed(),
            within@.len() == self.functions@.len(),
        ensures
            is_table(table@),
            table@.len() == self.functions@.len(),
            table_edges(table@) == call_edges(self@, flagged(within@)),
    {
        let mut table: Vec<Vec<usize>> = Vec::new();
        let mut place: usize = 0;
        while place < self.functions.len()
            invariant
                self.well_formed(),
                place <= self.functions@.len(),
                within@.len() == self.functions@.len(),
                table@.len() == place,
                forall|i: int, k: int|
                    0 <= i < place && 0 <= k < table@[i]@.len() ==> #[trigger] table@[i]@[k]
                        < self.functions@.len(),
                forall|i: int, j: int|
                    0 <= i < place ==> #[trigger] is_listed(table@[i]@, j) == calls(
                        self@,
                        flagged(within@),
                        i,
                        j,
                    ),
            decreases self.functions@.len() - place,
        {
            let row = if within[place] {
                self.call_row(place, within)
            } else {
                Vec::new()
            };
            table.push(row);
            place += 1;
        }
        proof {
            let left = table_edges(table@);
            let right = call_edges(self@, flagged(within@));
            assert forall|i: int, j: int| #[trigger] left(i, j) == right(i, j) by {
                if 0 <= i < table@.len() {
                    assert(is_listed(table@[i]@, j) == calls(self@, flagged(within@), i, j));
                }
            }
            assert(left =~= right);
        }
        table
    }

    /// The uncovered function that comes first as a candidate.
    fn first_open(&self, within: &Vec<bool>, covered: &Vec<bool>, by_source: bool) -> (result:
        Option<usize>)
        requires
            self.well_formed(),
            within@.len() == self.functions@.len(),
            covered@.len() == self.functions@.len(),
        ensures
            match result {
                Some(found) => found < within@.len() && within@[found as int]
                    && !covered@[found as int] && forall|k: int|
                    0 <= k < within@.len() && within@[k] && !#[trigger] covered@[k] && k != found
                        ==> comes_earlier(self@, by_source, found as int, k),
                None => forall|k: int|
                    0 <= k < within@.len() && within@[k] ==> #[trigger] covered@[k],
            },
    {
        let mut best: Option<usize> = None;
        let mut index: usize = 0;
        while index < self.functions.len()
            invariant
                self.well_formed(),
                index <= self.functions@.len(),
                within@.len() == self.functions@.len(),
                covered@.len() == self.functions@.len(),
                match best {
                    Some(found) => found < index && within@[found as int]
                        && !covered@[found as int] && forall|k: int|
                        0 <= k < index && within@[k] && !#[trigger] covered@[k] && k != found
                            ==> comes_earlier(self@, by_source, found as int, k),
                    None => forall|k: int|
                        0 <= k < index && within@[k] ==> #[trigger] covered@[k],
                },
            decreases self.functions@.len() - index,
        {
            if within[index] && !covered[index] {
                match best {
                    None => {
                        best = Some(index);
                    },
                    Some(found) => {
                        let ghost functions = self@.functions;
                        proof {
                            assert(functions[index as int] == self.functions@[index as int]@);
                            assert(functions[found as int] == self.functions@[found as int]@);
                            stands_before_laws(
                                functions[index as int],
                                functions[found as int],
                                functions[index as int],
                            );
                            if functions[index as int].id == functions[found as int].id {
                                symbols_are_distinct(self@, index as int, found as int);
                            }
                        }
                        if by_source && is_before(&self.functions[index], &self.functions[found]) {
                            proof {
                                assert forall|k: int|
                                    0 <= k < index + 1 && within@[k] && !#[trigger] covered@[k] && k
                                        != index implies comes_earlier(
                                    self@,
                                    by_source,
                                    index as int,
                                    k,
                                ) by {
                                    if k != found {
                                        stands_before_laws(
                                            functions[index as int],
                                            functions[found as int],
                                            functions[k],
                                        );
                                    }
                                }
                            }
                            best = Some(index);
                        }
                    },
                }
            }
            index += 1;
        }
        best
    }

    /// The roots of the functions that are flagged.
    #[verifier::rlimit(30)]
    fn component_roots(&self, within: &Vec<bool>, by_source: bool) -> (roots: Vec<bool>)
        requires
            self.well_formed(),
            within@.len() == self.functions@.len(),
        ensures
            roots@.len() == self.functions@.len(),
            is_root_set(self@, flagged(within@), by_source, flagged(roots@)),
    {
        let count: usize = self.functions.len();
        let table = self.call_table(within);
        let ghost places = flagged(within@);
        let ghost edge = call_edges(self@, places);
        let called = called_flags(&table);
        let mut roots: Vec<bool> = Vec::new();
        let mut covered: Vec<bool> = Vec::new();
        let mut index: usize = 0;
        while index < count
            invariant
                index <= count,
                count == self.functions@.len(),
                within@.len() == count,
                called@.len() == count,
                table@.len() == count,
                edge == table_edges(table@),
                places == flagged(within@),
                edge == call_edges(self@, places),
                forall|j: int|
                    0 <= j < count ==> (#[trigger] called@[j]) == exists|i: int|
                        #[trigger] adjacent(table@, i, j),
                roots@.len() == index,
                covered@.len() == index,
                forall|k: int|
                    0 <= k < index ==> (#[trigger] roots@[k]) == is_natural_root(self@, places, k),
                forall|k: int| 0 <= k < index ==> !#[trigger] covered@[k],
            decreases count - index,
        {
            let natural = within[index] && !called[index];
            proof {
                let here = index as int;
                if natural {
                    assert forall|caller: int| !#[trigger] calls(self@, places, caller, here) by {
                        assert(!adjacent(table@, caller, here));
                        assert(!edge(caller, here));
                    }
                } else if within@[here] {
                    let caller = choose|i: int| #[trigger] adjacent(table@, i, here);
                    assert(edge(caller, here));
                    assert(calls(self@, places, caller, here));
                }
            }
            roots.push(natural);
            covered.push(false);
            index += 1;
        }
        let ghost natural_flags = roots@;
        proof {
            assert(flagged(covered@) =~= Set::<int>::empty());
        }
        let mut index: usize = 0;
        while index < count
            invariant
                index <= count,
                count == self.functions@.len(),
                roots@ == natural_flags,
                natural_flags.len() == count,
                covered@.len() == count,
                table@.len() == count,
                is_table(table@),
                edge == table_edges(table@),
                is_closed(edge, flagged(covered@)),
                forall|j: int| #[trigger]
                    flagged(covered@).contains(j) <==> exists|r: int|
                        0 <= r < index && #[trigger] natural_flags[r] && reaches(edge, r, j),
            decreases count - index,
        {
            let ghost before = flagged(covered@);
            if roots[index] {
                mark_reachable(index, &table, &mut covered);
            }
            proof {
                assert forall|j: int| #[trigger] flagged(covered@).contains(j) <==> exists|r: int|
                    0 <= r < index + 1 && #[trigger] natural_flags[r] && reaches(edge, r, j) by {
                    if before.contains(j) {
                        let r = choose|r: int|
                            0 <= r < index && #[trigger] natural_flags[r] && reaches(edge, r, j);
                        assert(natural_flags[r] && r < index + 1);
                    }
                    if natural_flags[index as int] && reaches(edge, index as int, j) {
                        assert(flagged(covered@).contains(j));
                    }
                    if exists|r: int|
                        0 <= r < index + 1 && #[trigger] natural_flags[r] && reaches(edge, r, j) {
                        let r = choose|r: int|
                            0 <= r < index + 1 && #[trigger] natural_flags[r] && reaches(
                                edge,
                                r,
                                j,
                            );
                        if r < index {
                            assert(before.contains(j));
                        }
                    }
                }
            }
            index += 1;
        }
        proof {
            assert forall|j: int| #[trigger] flagged(covered@).contains(j) implies covered_in_turn(
                self@,
                places,
                by_source,
                flagged(roots@),
                j,
            ) by {
                let r = choose|r: int|
                    0 <= r < count && #[trigger] natural_flags[r] && reaches(edge, r, j);
                assert(is_natural_root(self@, places, r));
                assert(flagged(roots@).contains(r));
            }
            assert forall|r: int| flagged(roots@).contains(r) implies flagged(covered@).contains(
                r,
            ) by {
                reaches_itself(edge, r);
                assert(natural_flags[r]);
            }
        }
        let mut open: Option<usize> = self.first_open(within, &covered, by_source);
        while open.is_some()
            invariant
                self.well_formed(),
                count == self.functions@.len(),
                within@.len() == count,
                roots@.len() == count,
                covered@.len() == count,
                table@.len() == count,
                is_table(table@),
                places == flagged(within@),
                edge == table_edges(table@),
                edge == call_edges(self@, places),
                is_closed(edge, flagged(covered@)),
                forall|r: int| flagged(roots@).contains(r) ==> flagged(covered@).contains(r),
                forall|r: int| flagged(roots@).contains(r) ==> places.contains(r),
                forall|r: int|
                    is_natural_root(self@, places, r) ==> #[trigger] flagged(roots@).contains(r),
                forall|j: int| #[trigger]
                    flagged(covered@).contains(j) ==> covered_in_turn(
                        self@,
                        places,
                        by_source,
                        flagged(roots@),
                        j,
                    ),
                forall|r: int, k: int|
                    #[trigger] flagged(roots@).contains(r) && !is_natural_root(self@, places, r)
                        && places.contains(k) && !#[trigger] flagged(covered@).contains(k)
                        ==> comes_earlier(self@, by_source, r, k),
                forall|r: int, p: int|
                    #[trigger] flagged(roots@).contains(r) && flagged(roots@).contains(p)
                        && !is_natural_root(self@, places, p) ==> !#[trigger] root_covers(
                        self@,
                        places,
                        by_source,
                        r,
                        p,
                    ),
                match open {
                    Some(found) => found < within@.len() && within@[found as int]
                        && !covered@[found as int] && forall|k: int|
                        0 <= k < within@.len() && within@[k] && !#[trigger] covered@[k] && k
                            != found ==> comes_earlier(self@, by_source, found as int, k),
                    None => forall|k: int|
                        0 <= k < within@.len() && within@[k] ==> #[trigger] covered@[k],
                },
            decreases open_count(covered@, covered@.len()),
        {
            let found: usize = match open {
                Some(found) => found,
                None => 0,
            };
            let ghost picked = found as int;
            let ghost flags = covered@;
            let ghost old_roots = flagged(roots@);
            let ghost old_covered = flagged(covered@);
            roots.set(found, true);
            mark_reachable(found, &table, &mut covered);
            proof {
                let new_roots = flagged(roots@);
                let new_covered = flagged(covered@);
                reaches_itself(edge, picked);
                assert(places.contains(picked));
                assert(!old_covered.contains(picked));
                assert(new_roots =~= old_roots.insert(picked));
                assert(new_covered.contains(picked));
                assert forall|j: int| 0 <= j < flags.len() && flags[j] implies #[trigger] covered@[
                j] by {
                    assert(old_covered.contains(j));
                    assert(new_covered.contains(j));
                }
                covering_more_lowers_the_open_count(flags, covered@, picked, flags.len());
                assert forall|j: int| #[trigger] new_covered.contains(j) implies covered_in_turn(
                    self@,
                    places,
                    by_source,
                    new_roots,
                    j,
                ) by {
                    if old_covered.contains(j) {
                        let r = choose|r: int|
                            old_roots.contains(r) && #[trigger] reaches(edge, r, j) && (
                            is_natural_root(self@, places, r) || r == j || comes_earlier(
                                self@,
                                by_source,
                                r,
                                j,
                            ));
                        assert(new_roots.contains(r) && reaches(edge, r, j));
                    } else {
                        assert(reaches(edge, picked, j));
                        reached_places_are_within(self@, places, picked, j);
                        assert(within@[j]);
                        assert(!flags[j]);
                        assert(new_roots.contains(picked) && reaches(edge, picked, j));
                    }
                }
                assert forall|r: int, k: int|
                    #[trigger] new_roots.contains(r) && !is_natural_root(self@, places, r)
                        && places.contains(k) && !#[trigger] new_covered.contains(
                        k,
                    ) implies comes_earlier(self@, by_source, r, k) by {
                    assert(!old_covered.contains(k));
                    if r == picked {
                        assert(within@[k] && !flags[k]);
                        assert(k != picked);
                    } else {
                        assert(old_roots.contains(r));
                    }
                }
                assert forall|r: int, p: int|
                    #[trigger] new_roots.contains(r) && new_roots.contains(p) && !is_natural_root(
                        self@,
                        places,
                        p,
                    ) implies !#[trigger] root_covers(self@, places, by_source, r, p) by {
                    if r == picked && p == picked {
                        stands_before_laws(
                            self@.functions[r],
                            self@.functions[r],
                            self@.functions[r],
                        );
                        assert(!old_roots.contains(picked));
                    } else if r == picked {
                        assert(old_roots.contains(p));
                        assert(comes_earlier(self@, by_source, p, picked));
                        stands_before_laws(
                            self@.functions[p],
                            self@.functions[picked],
                            self@.functions[p],
                        );
                        assert(!comes_earlier(self@, by_source, picked, p));
                        assert(!is_natural_root(self@, places, picked));
                    } else if p == picked {
                        assert(old_roots.contains(r));
                        if reaches(edge, r, picked) {
                            closed_sets_hold_their_reach(edge, old_covered, r, picked);
                        }
                    } else {
                        assert(old_roots.contains(r) && old_roots.contains(p));
                    }
                }
            }
            open = self.first_open(within, &covered, by_source);
        }
        proof {
            let final_roots = flagged(roots@);
            assert forall|place: int|
                #[trigger] final_roots.contains(place) <==> places.contains(place) && (
                is_natural_root(self@, places, place) || !exists|root: int|
                    final_roots.contains(root) && #[trigger] root_covers(
                        self@,
                        places,
                        by_source,
                        root,
                        place,
                    )) by {
                if places.contains(place) && !final_roots.contains(place) {
                    assert(covered@[place]);
                    assert(flagged(covered@).contains(place));
                    assert(covered_in_turn(self@, places, by_source, final_roots, place));
                    let r = choose|r: int|
                        final_roots.contains(r) && #[trigger] reaches(edge, r, place) && (
                        is_natural_root(self@, places, r) || r == place || comes_earlier(
                            self@,
                            by_source,
                            r,
                            place,
                        ));
                    assert(root_covers(self@, places, by_source, r, place));
                }
            }
        }
        roots
    }
}

/// Whether a place is reached by a root that is not called, is the place
/// itself, or comes earlier.
spec fn covered_in_turn(
    graph: GraphModel,
    within: Set<int>,
    by_source: bool,
    roots: Set<int>,
    place: int,
) -> bool {
    exists|r: int|
        roots.contains(r) && #[trigger] reaches(call_edges(graph, within), r, place) && (
        is_natural_root(graph, within, r) || r == place || comes_earlier(
            graph,
            by_source,
            r,
            place,
        ))
}

proof fn reached_places_are_within(graph: GraphModel, within: Set<int>, from: int, to: int)
    requires
        within.contains(from),
        reaches(call_edges(graph, within), from, to),
    ensures
        within.contains(to),
{
    let edge = call_edges(graph, within);
    assert(is_closed(edge, within));
    closed_sets_hold_their_reach(edge, within, from, to);
}

proof fn covering_more_lowers_the_open_count(
    before: Seq<bool>,
    after: Seq<bool>,
    index: int,
    count: nat,
)
    requires
        before.len() == after.len(),
        count <= before.len(),
        0 <= index < before.len(),
        !before[index],
        after[index],
        forall|j: int| 0 <= j < before.len() && before[j] ==> #[trigger] after[j],
    ensures
        open_count(after, count) <= open_count(before, count),
        index < count ==> open_count(after, count) < open_count(before, count),
    decreases count,
{
    if count > 0 {
        covering_more_lowers_the_open_count(before, after, index, (count - 1) as nat);
        if before[count - 1] {
            assert(after[count - 1]);
        }
    }
}

/// Which nodes some edge leads to.
fn called_flags(table: &Vec<Vec<usize>>) -> (called: Vec<bool>)
    requires
        is_table(table@),
    ensures
        called@.len() == table@.len(),
        forall|j: int|
            0 <= j < table@.len() ==> (#[trigger] called@[j]) == exists|i: int|
                #[trigger] adjacent(table@, i, j),
{
    let turned = flip_table(table);
    let mut called: Vec<bool> = Vec::new();
    let mut index: usize = 0;
    while index < turned.len()
        invariant
            index <= turned@.len(),
            turned@.len() == table@.len(),
            is_table(turned@),
            is_table(table@),
            forall|i: int, j: int|
                0 <= i < table@.len() && 0 <= j < table@.len() ==> adjacent(turned@, j, i)
                    == #[trigger] adjacent(table@, i, j),
            called@.len() == index,
            forall|j: int|
                0 <= j < index ==> (#[trigger] called@[j]) == exists|i: int|
                    #[trigger] adjacent(table@, i, j),
        decreases turned@.len() - index,
    {
        let any = turned[index].len() > 0;
        proof {
            let here = index as int;
            if any {
                let i = turned@[here]@[0] as int;
                assert(turned@[here]@[0] < turned@.len());
                assert(adjacent(turned@, here, i));
                assert(adjacent(table@, i, here));
            } else if exists|i: int| #[trigger] adjacent(table@, i, here) {
                let i = choose|i: int| #[trigger] adjacent(table@, i, here);
                assert(adjacent(turned@, here, i));
            }
        }
        called.push(any);
        index += 1;
    }
    called
}

/// The declared roots among the first `count` that have a function.
pub open spec fn present_roots(graph: GraphModel, count: nat) -> Seq<SymbolModel>
    decreases count,
{
    if count == 0 {
        Seq::empty()
    } else {
        let before = present_roots(graph, (count - 1) as nat);
        if has_function(graph, graph.declared_roots[count - 1]) {
            before.push(graph.declared_roots[count - 1])
        } else {
            before
        }
    }
}

/// Whether symbols are the roots of a graph: the declared ones that have a
/// function or, where none are declared, one for every part of the graph.
pub open spec fn are_roots(graph: GraphModel, symbols: Seq<SymbolModel>) -> bool {
    if graph.declared_roots.len() > 0 {
        symbols == present_roots(graph, graph.declared_roots.len())
    } else {
        exists|roots: Set<int>| #[trigger]
            is_root_set(graph, all_places(graph), true, roots) && symbols == kept_ids(graph, roots)
    }
}

/// Whether symbols are the roots of the functions in a file.
pub open spec fn are_file_roots(
    graph: GraphModel,
    file: FileModel,
    symbols: Seq<SymbolModel>,
) -> bool {
    exists|roots: Set<int>| #[trigger]
        is_root_set(graph, places_in_file(graph, file), false, roots) && symbols == kept_ids(
            graph,
            roots,
        )
}

/// The roots of a graph.
pub open spec fn root_symbols(graph: GraphModel) -> Seq<SymbolModel> {
    choose|symbols: Seq<SymbolModel>| are_roots(graph, symbols)
}

/// The roots of the functions in a file.
pub open spec fn file_root_symbols(graph: GraphModel, file: FileModel) -> Seq<SymbolModel> {
    choose|symbols: Seq<SymbolModel>| are_file_roots(graph, file, symbols)
}

/// A graph has its roots in one way only.
pub proof fn roots_are_unique(graph: GraphModel, symbols: Seq<SymbolModel>)
    requires
        are_roots(graph, symbols),
    ensures
        symbols == root_symbols(graph),
{
    let other = root_symbols(graph);
    assert(are_roots(graph, other));
    if graph.declared_roots.len() == 0 {
        let places = all_places(graph);
        let left = choose|roots: Set<int>| #[trigger]
            is_root_set(graph, places, true, roots) && symbols == kept_ids(graph, roots);
        let right = choose|roots: Set<int>| #[trigger]
            is_root_set(graph, places, true, roots) && other == kept_ids(graph, roots);
        root_sets_are_unique(graph, places, true, left, right);
    }
}

/// The functions of a file have their roots in one way only.
pub proof fn file_roots_are_unique(
    graph: GraphModel,
    file: FileModel,
    symbols: Seq<SymbolModel>,
)
    requires
        are_file_roots(graph, file, symbols),
    ensures
        symbols == file_root_symbols(graph, file),
{
    let other = file_root_symbols(graph, file);
    assert(are_file_roots(graph, file, other));
    let places = places_in_file(graph, file);
    let left = choose|roots: Set<int>| #[trigger]
        is_root_set(graph, places, false, roots) && symbols == kept_ids(graph, roots);
    let right = choose|roots: Set<int>| #[trigger]
        is_root_set(graph, places, false, roots) && other == kept_ids(graph, roots);
    assert(places.subset_of(all_places(graph)));
    root_sets_are_unique(graph, places, false, left, right);
}

/// The places that come earlier than a place.
spec fn earlier_places(graph: GraphModel, by_source: bool, place: int) -> Set<int> {
    vstd::set_lib::set_int_range(0, graph.functions.len() as int).filter(
        |k: int| comes_earlier(graph, by_source, k, place),
    )
}

proof fn earlier_places_shrink(graph: GraphModel, by_source: bool, root: int, place: int)
    requires
        0 <= root < graph.functions.len(),
        comes_earlier(graph, by_source, root, place),
    ensures
        earlier_places(graph, by_source, root).len() < earlier_places(
            graph,
            by_source,
            place,
        ).len(),
{
    let small = earlier_places(graph, by_source, root);
    let large = earlier_places(graph, by_source, place);
    let range = vstd::set_lib::set_int_range(0, graph.functions.len() as int);
    vstd::set_lib::lemma_int_range(0, graph.functions.len() as int);
    assert(large.subset_of(range));
    assert forall|k: int| small.contains(k) implies large.contains(k) by {
        if by_source {
            stands_before_laws(graph.functions[k], graph.functions[root], graph.functions[place]);
        }
    }
    assert(large.contains(root));
    stands_before_laws(graph.functions[root], graph.functions[root], graph.functions[root]);
    assert(!small.contains(root));
    vstd::set_lib::lemma_len_subset(large, range);
    vstd::set_lib::lemma_len_subset(small, large.remove(root));
}

proof fn root_sets_agree(
    graph: GraphModel,
    within: Set<int>,
    by_source: bool,
    left: Set<int>,
    right: Set<int>,
    place: int,
)
    requires
        within.subset_of(all_places(graph)),
        is_root_set(graph, within, by_source, left),
        is_root_set(graph, within, by_source, right),
    ensures
        left.contains(place) == right.contains(place),
    decreases earlier_places(graph, by_source, place).len(),
{
    if within.contains(place) && !is_natural_root(graph, within, place) {
        if !left.contains(place) {
            let root = choose|root: int|
                left.contains(root) && #[trigger] root_covers(
                    graph,
                    within,
                    by_source,
                    root,
                    place,
                );
            assert(within.contains(root));
            if !is_natural_root(graph, within, root) {
                earlier_places_shrink(graph, by_source, root, place);
                root_sets_agree(graph, within, by_source, left, right, root);
            }
            assert(right.contains(root));
        }
        if !right.contains(place) {
            let root = choose|root: int|
                right.contains(root) && #[trigger] root_covers(
                    graph,
                    within,
                    by_source,
                    root,
                    place,
                );
            assert(within.contains(root));
            if !is_natural_root(graph, within, root) {
                earlier_places_shrink(graph, by_source, root, place);
                root_sets_agree(graph, within, by_source, left, right, root);
            }
            assert(left.contains(root));
        }
    }
}

/// Functions have one set of roots only.
pub proof fn root_sets_are_unique(
    graph: GraphModel,
    within: Set<int>,
    by_source: bool,
    left: Set<int>,
    right: Set<int>,
)
    requires
        within.subset_of(all_places(graph)),
        is_root_set(graph, within, by_source, left),
        is_root_set(graph, within, by_source, right),
    ensures
        left == right,
{
    assert forall|place: int| left.contains(place) == right.contains(place) by {
        root_sets_agree(graph, within, by_source, left, right, place);
    }
    assert(left =~= right);
}

/// Whether a function's symbol is among some symbols.
pub open spec fn is_wanted(graph: GraphModel, wanted: Seq<SymbolModel>, place: int) -> bool {
    wanted.contains(graph.functions[place].id)
}

/// The places of the functions that pass an optional selection of one file.
pub open spec fn selected_places(graph: GraphModel, file: Option<FileModel>) -> Set<int> {
    Set::new(
        |k: int| 0 <= k < graph.functions.len() && selects(file, graph.functions[k].span.file),
    )
}

/// The places, among the selected ones, from which calls lead to a wanted
/// function.
pub open spec fn reaching_places(
    graph: GraphModel,
    wanted: Seq<SymbolModel>,
    file: Option<FileModel>,
) -> Set<int> {
    let within = selected_places(graph, file);
    Set::new(
        |from: int|
            within.contains(from) && exists|to: int|
                within.contains(to) && is_wanted(graph, wanted, to) && #[trigger] reaches(
                    call_edges(graph, within),
                    from,
                    to,
                ),
    )
}

/// Whether a function has a call with several possible targets.
pub open spec fn dispatches(function: FunctionModel) -> bool {
    exists|c: int|
        0 <= c < function.calls.len() && (#[trigger] function.calls[c]).target is Dynamic
}

/// The places of the selected functions that have a call with several possible
/// targets.
pub open spec fn dispatching_places(graph: GraphModel, file: Option<FileModel>) -> Set<int> {
    Set::new(
        |k: int|
            selected_places(graph, file).contains(k) && dispatches(graph.functions[k]),
    )
}

fn has_dispatch(function: &FunctionInfo) -> (result: bool)
    ensures
        result == dispatches(function@),
{
    let mut index: usize = 0;
    while index < function.calls.len()
        invariant
            index <= function.calls@.len(),
            forall|c: int|
                0 <= c < index ==> !((#[trigger] function@.calls[c]).target is Dynamic),
        decreases function.calls@.len() - index,
    {
        assert(function@.calls[index as int] == function.calls@[index as int]@);
        if let CallTarget::Dynamic { .. } = &function.calls[index].target {
            return true;
        }
        index += 1;
    }
    false
}

impl ProgramGraph {
    /// The roots of the graph: the declared ones or, where none are declared,
    /// one for every part of the graph. A function that nothing calls is a
    /// root; of a closed circle of calls the root is the function that stands
    /// first in the source.
    pub fn inferred_roots(&self) -> (result: Vec<SymbolId>)
        ensures
            are_roots(self@, symbol_models(result@)),
            symbol_models(result@) == root_symbols(self@),
    {
        proof {
            use_type_invariant(self);
        }
        if self.declared_roots.len() > 0 {
            let mut result: Vec<SymbolId> = Vec::new();
            let mut index: usize = 0;
            proof {
                assert(symbol_models(result@) =~= Seq::<SymbolModel>::empty());
            }
            while index < self.declared_roots.len()
                invariant
                    index <= self.declared_roots@.len(),
                    symbol_models(result@) == present_roots(self@, index as nat),
                decreases self.declared_roots@.len() - index,
            {
                let root = &self.declared_roots[index];
                assert(self@.declared_roots[index as int] == root@);
                if self.find(root).is_some() {
                    let ghost before = symbol_models(result@);
                    result.push(root.clone());
                    proof {
                        assert(symbol_models(result@) =~= before.push(root@));
                    }
                }
                index += 1;
            }
            proof {
                roots_are_unique(self@, symbol_models(result@));
            }
            return result;
        }
        let within = self.selected_flags(None);
        proof {
            assert(flagged(within@) =~= all_places(self@));
        }
        let roots = self.component_roots(&within, true);
        let result = self.flagged_symbols(&roots);
        proof {
            assert(is_root_set(self@, all_places(self@), true, flagged(roots@)));
            roots_are_unique(self@, symbol_models(result@));
        }
        result
    }

    /// The roots of the functions in one file.
    pub fn roots_in_file(&self, file: &SourceFile) -> (result: Vec<SymbolId>)
        ensures
            are_file_roots(self@, file@, symbol_models(result@)),
            symbol_models(result@) == file_root_symbols(self@, file@),
    {
        proof {
            use_type_invariant(self);
        }
        let within = self.selected_flags(Some(file));
        proof {
            assert(flagged(within@) =~= places_in_file(self@, file@));
        }
        let roots = self.component_roots(&within, false);
        let result = self.flagged_symbols(&roots);
        proof {
            assert(is_root_set(self@, places_in_file(self@, file@), false, flagged(roots@)));
            file_roots_are_unique(self@, file@, symbol_models(result@));
        }
        result
    }

    /// Which functions pass an optional selection of one file.
    fn selected_flags(&self, file: Option<&SourceFile>) -> (flags: Vec<bool>)
        ensures
            flags@.len() == self.functions@.len(),
            flagged(flags@) == selected_places(self@, optional_file(file)),
    {
        let mut flags: Vec<bool> = Vec::new();
        let mut index: usize = 0;
        while index < self.functions.len()
            invariant
                index <= self.functions@.len(),
                flags@.len() == index,
                forall|k: int|
                    0 <= k < index ==> (#[trigger] flags@[k]) == selects(
                        optional_file(file),
                        self@.functions[k].span.file,
                    ),
            decreases self.functions@.len() - index,
        {
            assert(self@.functions[index as int] == self.functions@[index as int]@);
            flags.push(selected(file, &self.functions[index].span.file));
            index += 1;
        }
        proof {
            assert(flagged(flags@) =~= selected_places(self@, optional_file(file)));
        }
        flags
    }

    /// The functions from which calls lead to one of `targets`, all within
    /// the selected file.
    #[verifier::rlimit(30)]
    pub fn symbols_reaching(&self, targets: &Vec<SymbolId>, file: Option<&SourceFile>) -> (result:
        Vec<SymbolId>)
        ensures
            symbol_models(result@) == kept_ids(
                self@,
                reaching_places(self@, symbol_models(targets@), optional_file(file)),
            ),
    {
        proof {
            use_type_invariant(self);
        }
        let count: usize = self.functions.len();
        let within = self.selected_flags(file);
        let ghost places = flagged(within@);
        let ghost edge = call_edges(self@, places);
        let ghost wanted = symbol_models(targets@);
        let table = self.call_table(&within);
        let turned = flip_table(&table);
        let ghost back = table_edges(turned@);
        proof {
            assert forall|i: int, j: int| #[trigger] back(i, j) == flipped(edge)(i, j) by {
                if 0 <= i < count && 0 <= j < count {
                    assert(adjacent(turned@, i, j) == adjacent(table@, j, i));
                } else {
                    if adjacent(turned@, i, j) {
                        let k = choose|k: int|
                            0 <= k < turned@[i]@.len() && #[trigger] turned@[i]@[k] == j;
                        assert(turned@[i]@[k] < turned@.len());
                    }
                    if adjacent(table@, j, i) {
                        let k = choose|k: int|
                            0 <= k < table@[j]@.len() && #[trigger] table@[j]@[k] == i;
                        assert(table@[j]@[k] < table@.len());
                    }
                    assert(edge(j, i) == table_edges(table@)(j, i));
                }
            }
            assert(back =~= flipped(edge));
        }
        let mut covered: Vec<bool> = Vec::new();
        let mut index: usize = 0;
        while index < count
            invariant
                index <= count,
                covered@.len() == index,
                forall|k: int| 0 <= k < index ==> !#[trigger] covered@[k],
            decreases count - index,
        {
            covered.push(false);
            index += 1;
        }
        proof {
            assert(flagged(covered@) =~= Set::<int>::empty());
        }
        let mut index: usize = 0;
        while index < count
            invariant
                index <= count,
                count == self.functions@.len(),
                within@.len() == count,
                places == flagged(within@),
                wanted == symbol_models(targets@),
                turned@.len() == count,
                is_table(turned@),
                back == table_edges(turned@),
                covered@.len() == count,
                is_closed(back, flagged(covered@)),
                forall|j: int| #[trigger]
                    flagged(covered@).contains(j) <==> exists|t: int|
                        0 <= t < index && places.contains(t) && is_wanted(self@, wanted, t)
                            && #[trigger] reaches(back, t, j),
            decreases count - index,
        {
            let ghost before = flagged(covered@);
            let ghost here = index as int;
            assert(self@.functions[here] == self.functions@[here]@);
            let wanted_here = within[index] && has_symbol(targets, &self.functions[index].id);
            if wanted_here {
                mark_reachable(index, &turned, &mut covered);
            }
            proof {
                assert forall|j: int| #[trigger] flagged(covered@).contains(j) <==> exists|t: int|
                    0 <= t < index + 1 && places.contains(t) && is_wanted(self@, wanted, t)
                        && #[trigger] reaches(back, t, j) by {
                    if before.contains(j) {
                        let t = choose|t: int|
                            0 <= t < index && places.contains(t) && is_wanted(self@, wanted, t)
                                && #[trigger] reaches(back, t, j);
                        assert(t < index + 1 && reaches(back, t, j));
                    }
                    if wanted_here && reaches(back, here, j) {
                        assert(flagged(covered@).contains(j));
                    }
                    if exists|t: int|
                        0 <= t < index + 1 && places.contains(t) && is_wanted(self@, wanted, t)
                            && #[trigger] reaches(back, t, j) {
                        let t = choose|t: int|
                            0 <= t < index + 1 && places.contains(t) && is_wanted(
                                self@,
                                wanted,
                                t,
                            ) && #[trigger] reaches(back, t, j);
                        if t < index {
                            assert(before.contains(j));
                        }
                    }
                }
            }
            index += 1;
        }
        proof {
            let result_places = reaching_places(self@, wanted, optional_file(file));
            assert forall|j: int| flagged(covered@).contains(j) == result_places.contains(j) by {
                if flagged(covered@).contains(j) {
                    let t = choose|t: int|
                        0 <= t < count && places.contains(t) && is_wanted(self@, wanted, t)
                            && #[trigger] reaches(back, t, j);
                    flipped_edges_reach_back(edge, j, t);
                    assert(reaches(edge, j, t));
                    assert(is_closed(back, places)) by {
                        assert forall|from: int, to: int| #[trigger]
                            back(from, to) && places.contains(from) implies places.contains(to) by {
                            assert(flipped(edge)(from, to));
                        }
                    }
                    closed_sets_hold_their_reach(back, places, t, j);
                }
                if result_places.contains(j) {
                    let t = choose|t: int|
                        places.contains(t) && is_wanted(self@, wanted, t) && #[trigger] reaches(
                            edge,
                            j,
                            t,
                        );
                    flipped_edges_reach_back(edge, j, t);
                    assert(reaches(back, t, j));
                }
            }
            assert(flagged(covered@) =~= result_places);
        }
        self.flagged_symbols(&covered)
    }

    /// The functions from which calls lead to a call with several possible
    /// targets, all within the selected file.
    pub fn dispatch_context_symbols(&self, file: Option<&SourceFile>) -> (result: Vec<SymbolId>)
        ensures
            symbol_models(result@) == kept_ids(
                self@,
                reaching_places(
                    self@,
                    kept_ids(self@, dispatching_places(self@, optional_file(file))),
                    optional_file(file),
                ),
            ),
    {
        proof {
            use_type_invariant(self);
        }
        let mut flags = self.selected_flags(file);
        let ghost chosen = flags@;
        let mut index: usize = 0;
        while index < self.functions.len()
            invariant
                index <= self.functions@.len(),
                flags@.len() == self.functions@.len(),
                chosen.len() == flags@.len(),
                forall|k: int|
                    0 <= k < index ==> (#[trigger] flags@[k]) == (chosen[k] && dispatches(
                        self@.functions[k],
                    )),
                forall|k: int| index <= k < chosen.len() ==> (#[trigger] flags@[k]) == chosen[k],
            decreases self.functions@.len() - index,
        {
            assert(self@.functions[index as int] == self.functions@[index as int]@);
            let kept = flags[index] && has_dispatch(&self.functions[index]);
            flags.set(index, kept);
            index += 1;
        }
        proof {
            assert forall|k: int| #[trigger] flagged(flags@).contains(k) == dispatching_places(
                self@,
                optional_file(file),
            ).contains(k) by {
                assert(flagged(chosen).contains(k) == selected_places(
                    self@,
                    optional_file(file),
                ).contains(k));
            }
            assert(flagged(flags@) =~= dispatching_places(self@, optional_file(file)));
        }
        let dispatchers = self.flagged_symbols(&flags);
        self.symbols_reaching(&dispatchers, file)
    }
}

/// Every function is reached from one of the graph's roots, where no roots are
/// declared.
pub proof fn inferred_roots_reach_everything(
    graph: GraphModel,
    symbols: Seq<SymbolModel>,
    place: int,
)
    requires
        in_order(graph),
        graph.declared_roots.len() == 0,
        are_roots(graph, symbols),
        0 <= place < graph.functions.len(),
    ensures
        exists|root: int|
            0 <= root < graph.functions.len() && symbols.contains(graph.functions[root].id)
                && #[trigger] reaches(call_edges(graph, all_places(graph)), root, place),
{
    let places = all_places(graph);
    let roots = choose|roots: Set<int>| #[trigger]
        is_root_set(graph, places, true, roots) && symbols == kept_ids(graph, roots);
    roots_reach_everything(graph, places, true, roots, place);
    let root = choose|root: int|
        roots.contains(root) && #[trigger] reaches(call_edges(graph, places), root, place);
    assert(places.contains(root));
    crate::entries::kept_ids_are_in_order(graph, roots, graph.functions.len());
    assert(kept_ids(graph, roots).contains(graph.functions[root].id));
}

} // verus!
