//! What an OCaml expression with branches may be: what any of its branches may
//! be, and nothing else.
use crate::lists::{insertion_holds, pushed_items};
use crate::model::{SymbolModel, UnresolvedReason};
use crate::ocaml::callable::{
    merged_flow, merged_flows_hold_both, with_doubt, FlowModel, IndexModel, PlaceModel,
};
use crate::ocaml::expressions::{
    branch_field, branch_outcomes, branches_of, branches_to, is_wrapper, last_named, outcomes,
    plain_text, wrapped_node,
};
use crate::ocaml::flow::{branch_flow, node_flow};
use crate::ocaml::node_laws::{
    fields_are_found, found_fields_are_fields, is_child, is_field_of, named_children_are_listed,
};
use crate::ocaml::syntax::{
    child_by_field, children_of_kind, end_of, ends_are_behind, fields_are_behind, named_are_behind,
    named_children, named_from, of_kind, RowModel,
};
use crate::rust::flow_laws::{added_reason_is_there, reasons_are_those_of_both};
use crate::sets::{text_position, with_text};
use vstd::prelude::*;

verus! {

/// Whether a node is a clause of a condition.
pub open spec fn is_clause(rows: Seq<RowModel>, node: int, clause: int) -> bool {
    is_child(rows, node, clause) && rows[clause].named && (rows[clause].kind == "then_clause"@
        || rows[clause].kind == "else_clause"@)
}

/// Whether a node is a case of a match.
pub open spec fn is_case(rows: Seq<RowModel>, node: int, case: int) -> bool {
    is_child(rows, node, case) && rows[case].named && rows[case].kind == "match_case"@
}

/// Whether a node is the value of a clause of a condition.
pub open spec fn is_clause_value(rows: Seq<RowModel>, node: int, clause: int, value: int) -> bool {
    is_clause(rows, node, clause) && is_field_of(rows, clause, "expression"@, value)
}

/// Whether a node is the value of a case of a match.
pub open spec fn is_case_value(rows: Seq<RowModel>, node: int, case: int, value: int) -> bool {
    is_case(rows, node, case) && is_field_of(rows, case, "body"@, value)
}

/// Whether a value may be all that another one may be.
pub open spec fn may_be(flow: FlowModel, part: FlowModel) -> bool {
    &&& forall|symbol: SymbolModel|
        part.candidates.contains(symbol) ==> #[trigger] flow.candidates.contains(symbol)
    &&& forall|reason: UnresolvedReason|
        part.reasons.contains(reason) ==> #[trigger] flow.reasons.contains(reason)
}

/// Merged values may be what either may be, and nothing else.
pub proof fn merged_flows_may_be_both(left: FlowModel, right: FlowModel)
    ensures
        may_be(merged_flow(left, right), left),
        may_be(merged_flow(left, right), right),
        forall|reason: UnresolvedReason| #[trigger]
            merged_flow(left, right).reasons.contains(reason) == (left.reasons.contains(reason)
                || right.reasons.contains(reason)),
        forall|symbol: SymbolModel| #[trigger]
            merged_flow(left, right).candidates.contains(symbol) == (left.candidates.contains(
                symbol,
            ) || right.candidates.contains(symbol)),
{
    assert forall|symbol: SymbolModel| #[trigger]
        merged_flow(left, right).candidates.contains(symbol) == (left.candidates.contains(symbol)
            || right.candidates.contains(symbol)) by {
        merged_flows_hold_both(left, right, symbol);
    }
    assert forall|reason: UnresolvedReason| #[trigger]
        merged_flow(left, right).reasons.contains(reason) == (left.reasons.contains(reason)
            || right.reasons.contains(reason)) by {
        reasons_are_those_of_both(
            left.reasons,
            right.reasons,
            right.reasons.len() as int,
            reason,
        );
        assert(right.reasons.take(right.reasons.len() as int) =~= right.reasons);
    }
}

proof fn doubts_take_nothing_away(flow: FlowModel, doubt: UnresolvedReason)
    ensures
        with_doubt(flow, doubt).candidates == flow.candidates,
        forall|reason: UnresolvedReason| #[trigger]
            with_doubt(flow, doubt).reasons.contains(reason) == (flow.reasons.contains(reason)
                || reason == doubt),
{
    assert forall|reason: UnresolvedReason| #[trigger]
        with_doubt(flow, doubt).reasons.contains(reason) == (flow.reasons.contains(reason)
            || reason == doubt) by {
        added_reason_is_there(flow.reasons, doubt, reason);
    }
}

/// The kinds of nodes are told apart.
proof fn kinds_are_apart()
    ensures
        forall|kind: Seq<char>|
            kind == "if_expression"@ || kind == "match_expression"@ ==> kind
                != "fun_expression"@ && kind != "function_expression"@ && kind
                != "application_expression"@ && kind != "field_get_expression"@ && kind
                != "value_path"@ && kind != "value_name"@ && kind != "parenthesized_operator"@
                && kind != "expression_item"@ && kind != "parenthesized_expression"@ && kind
                != "typed_expression"@ && kind != "coercion_expression"@ && kind
                != "let_expression"@ && kind != "local_open_expression"@ && #[trigger] kind.len()
                >= 0 && kind != "sequence_expression"@,
        "if_expression"@ != "match_expression"@,
        "then_clause"@ != "match_case"@,
        "else_clause"@ != "match_case"@,
{
    reveal_strlit("if_expression");
    reveal_strlit("match_expression");
    reveal_strlit("fun_expression");
    reveal_strlit("function_expression");
    reveal_strlit("application_expression");
    reveal_strlit("field_get_expression");
    reveal_strlit("value_path");
    reveal_strlit("value_name");
    reveal_strlit("parenthesized_operator");
    reveal_strlit("expression_item");
    reveal_strlit("parenthesized_expression");
    reveal_strlit("typed_expression");
    reveal_strlit("coercion_expression");
    reveal_strlit("let_expression");
    reveal_strlit("local_open_expression");
    reveal_strlit("sequence_expression");
    reveal_strlit("then_clause");
    reveal_strlit("else_clause");
    reveal_strlit("match_case");
    assert("if_expression"@.len() == 13 && "match_expression"@.len() == 16);
    assert("typed_expression"@[0] != "match_expression"@[0]);
    assert("fun_expression"@.len() == 14 && "function_expression"@.len() == 19);
    assert("application_expression"@.len() == 22 && "field_get_expression"@.len() == 20);
    assert("value_path"@.len() == 10 && "value_name"@.len() == 10);
    assert("parenthesized_operator"@.len() == 22 && "expression_item"@.len() == 15);
    assert("parenthesized_expression"@.len() == 24 && "typed_expression"@.len() == 16);
    assert("coercion_expression"@.len() == 19 && "let_expression"@.len() == 14);
    assert("local_open_expression"@.len() == 21 && "sequence_expression"@.len() == 19);
    assert("then_clause"@.len() == 11 && "else_clause"@.len() == 11 && "match_case"@.len() == 10);
}

proof fn branches_are_kept(
    rows: Seq<RowModel>,
    nodes: Seq<int>,
    condition: bool,
    count: int,
    branch: int,
)
    requires
        0 <= count <= nodes.len(),
    ensures
        branches_to(rows, nodes, condition, count).contains(branch) == (nodes.take(count).contains(
            branch,
        ) && (if condition {
            rows[branch].kind == "then_clause"@ || rows[branch].kind == "else_clause"@
        } else {
            rows[branch].kind == "match_case"@
        })),
    decreases count,
{
    if count > 0 {
        branches_are_kept(rows, nodes, condition, count - 1, branch);
        let last = nodes[count - 1];
        let shorter = nodes.take(count - 1);
        assert(nodes.take(count) =~= shorter.push(last));
        pushed_items(shorter, last, branch);
        pushed_items(branches_to(rows, nodes, condition, count - 1), last, branch);
    }
}

/// The branches of a condition are its clauses; those of a match, its cases.
proof fn branches_are_listed(rows: Seq<RowModel>, node: int, condition: bool, branch: int)
    requires
        0 <= node < rows.len(),
    ensures
        branches_of(rows, node, condition).contains(branch) == (if condition {
            is_clause(rows, node, branch)
        } else {
            is_case(rows, node, branch)
        }),
{
    let nodes = named_children(rows, node);
    branches_are_kept(rows, nodes, condition, nodes.len() as int, branch);
    assert(nodes.take(nodes.len() as int) =~= nodes);
    named_children_are_listed(rows, node, branch);
}

/// Whether a node is one of the branches of a node.
pub open spec fn is_branch(rows: Seq<RowModel>, node: int, condition: bool, branch: int) -> bool {
    if condition {
        is_clause(rows, node, branch)
    } else {
        is_case(rows, node, branch)
    }
}

/// Whether a node is the value of one of the branches of a node.
pub open spec fn is_branch_value(
    rows: Seq<RowModel>,
    node: int,
    condition: bool,
    branch: int,
    value: int,
) -> bool {
    if condition {
        is_clause_value(rows, node, branch, value)
    } else {
        is_case_value(rows, node, branch, value)
    }
}

/// What a value may be, or why it is not known.
pub open spec fn flow_or_doubt(flow: Option<FlowModel>) -> FlowModel {
    match flow {
        Some(flow) => flow,
        None => FlowModel {
            candidates: Seq::empty(),
            reasons: seq![UnresolvedReason::OpaqueInput],
        },
    }
}

proof fn branch_values_are_inside(
    rows: Seq<RowModel>,
    node: int,
    condition: bool,
    branch: int,
    value: int,
)
    requires
        is_branch_value(rows, node, condition, branch, value),
    ensures
        node < branch < value < rows.len(),
        child_by_field(rows, branch, branch_field(condition)) == Some(value),
        branches_of(rows, node, condition).contains(branch),
{
    fields_are_found(rows, branch, branch_field(condition), value);
    branches_are_listed(rows, node, condition, branch);
}

proof fn branch_flows_are_reached(
    index: IndexModel,
    place: PlaceModel,
    rows: Seq<RowModel>,
    node: int,
    condition: bool,
    count: int,
    steps: nat,
    at: int,
    value: int,
)
    requires
        0 <= at < count <= branches_of(rows, node, condition).len(),
        is_branch_value(rows, node, condition, branches_of(rows, node, condition)[at], value),
    ensures
        may_be(
            branch_flow(
                index,
                place,
                rows,
                node,
                branches_of(rows, node, condition),
                condition,
                count,
                steps,
            ).0,
            flow_or_doubt(node_flow(index, place, rows, value, steps)),
        ),
        branch_flow(
            index,
            place,
            rows,
            node,
            branches_of(rows, node, condition),
            condition,
            count,
            steps,
        ).1 > 0,
    decreases count,
{
    let branches = branches_of(rows, node, condition);
    branch_values_are_inside(rows, node, condition, branches[at], value);
    valued_branches_are_counted(index, place, rows, node, condition, count - 1, steps);
    let (before, valued) = branch_flow(
        index,
        place,
        rows,
        node,
        branches,
        condition,
        count - 1,
        steps,
    );
    if at < count - 1 {
        branch_flows_are_reached(
            index,
            place,
            rows,
            node,
            condition,
            count - 1,
            steps,
            at,
            value,
        );
        doubts_take_nothing_away(before, UnresolvedReason::UnsupportedConstruct);
        match child_by_field(rows, branches[count - 1], branch_field(condition)) {
            Some(last) => {
                merged_flows_may_be_both(
                    before,
                    flow_or_doubt(node_flow(index, place, rows, last, steps)),
                );
            },
            None => {},
        }
    } else {
        merged_flows_may_be_both(
            before,
            flow_or_doubt(node_flow(index, place, rows, value, steps)),
        );
    }
}

proof fn valued_branches_are_counted(
    index: IndexModel,
    place: PlaceModel,
    rows: Seq<RowModel>,
    node: int,
    condition: bool,
    count: int,
    steps: nat,
)
    ensures
        0 <= branch_flow(
            index,
            place,
            rows,
            node,
            branches_of(rows, node, condition),
            condition,
            count,
            steps,
        ).1,
    decreases count,
{
    if count > 0 {
        valued_branches_are_counted(index, place, rows, node, condition, count - 1, steps);
    }
}

/// What a condition may be holds what each of its clauses may be. Where one of
/// them is not known, the condition is not known to the end.
pub proof fn conditions_may_be_each_clause(
    index: IndexModel,
    place: PlaceModel,
    rows: Seq<RowModel>,
    node: int,
    clause: int,
    value: int,
    steps: nat,
)
    requires
        rows[node].kind == "if_expression"@,
        is_clause_value(rows, node, clause, value),
    ensures
        node_flow(index, place, rows, node, steps) is Some,
        may_be(
            node_flow(index, place, rows, node, steps)->0,
            flow_or_doubt(node_flow(index, place, rows, value, steps)),
        ),
{
    kinds_are_apart();
    assert(rows[node].kind.len() >= 0);
    branch_values_are_inside(rows, node, true, clause, value);
    let branches = branches_of(rows, node, true);
    let at = choose|at: int| 0 <= at < branches.len() && branches[at] == clause;
    let count = branches.len() as int;
    branch_flows_are_reached(index, place, rows, node, true, count, steps, at, value);
    doubts_take_nothing_away(
        branch_flow(index, place, rows, node, branches, true, count, steps).0,
        UnresolvedReason::OpaqueInput,
    );
}

/// What a match may be holds what each of its cases may be. Where one of them
/// is not known, the match is not known to the end.
pub proof fn matches_may_be_each_case(
    index: IndexModel,
    place: PlaceModel,
    rows: Seq<RowModel>,
    node: int,
    case: int,
    value: int,
    steps: nat,
)
    requires
        rows[node].kind == "match_expression"@,
        is_case_value(rows, node, case, value),
    ensures
        node_flow(index, place, rows, node, steps) is Some,
        may_be(
            node_flow(index, place, rows, node, steps)->0,
            flow_or_doubt(node_flow(index, place, rows, value, steps)),
        ),
{
    kinds_are_apart();
    assert(rows[node].kind.len() >= 0);
    branch_values_are_inside(rows, node, false, case, value);
    let branches = branches_of(rows, node, false);
    let at = choose|at: int| 0 <= at < branches.len() && branches[at] == case;
    let count = branches.len() as int;
    branch_flows_are_reached(index, place, rows, node, false, count, steps, at, value);
}

/// Whether every branch of a node has a value that is known to the end.
pub open spec fn branches_are_known(
    index: IndexModel,
    place: PlaceModel,
    rows: Seq<RowModel>,
    node: int,
    condition: bool,
    steps: nat,
) -> bool {
    forall|branch: int| #[trigger]
        is_branch(rows, node, condition, branch) ==> exists|value: int|
            {
                &&& #[trigger] is_branch_value(rows, node, condition, branch, value)
                &&& node_flow(index, place, rows, value, steps) is Some
                &&& node_flow(index, place, rows, value, steps)->0.reasons.len() == 0
            }
}

/// Whether a function is one that a branch of a node may be.
pub open spec fn branch_may_be(
    index: IndexModel,
    place: PlaceModel,
    rows: Seq<RowModel>,
    node: int,
    condition: bool,
    steps: nat,
    value: int,
    symbol: SymbolModel,
) -> bool {
    (exists|branch: int| #[trigger] is_branch_value(rows, node, condition, branch, value))
        && node_flow(index, place, rows, value, steps) is Some && node_flow(
        index,
        place,
        rows,
        value,
        steps,
    )->0.candidates.contains(symbol)
}

proof fn found_values_are_values(rows: Seq<RowModel>, node: int, condition: bool, at: int)
    requires
        0 <= node < rows.len(),
        0 <= at < branches_of(rows, node, condition).len(),
    ensures
        node < branches_of(rows, node, condition)[at] < rows.len(),
        is_branch(rows, node, condition, branches_of(rows, node, condition)[at]),
        match child_by_field(
            rows,
            branches_of(rows, node, condition)[at],
            branch_field(condition),
        ) {
            Some(value) => node < value < rows.len() && is_branch_value(
                rows,
                node,
                condition,
                branches_of(rows, node, condition)[at],
                value,
            ),
            None => true,
        },
{
    let branches = branches_of(rows, node, condition);
    assert(branches.contains(branches[at]));
    branches_are_listed(rows, node, condition, branches[at]);
    match child_by_field(rows, branches[at], branch_field(condition)) {
        Some(value) => {
            found_fields_are_fields(rows, branches[at], branch_field(condition), value);
        },
        None => {},
    }
}

proof fn branch_flows_come_from_branches(
    index: IndexModel,
    place: PlaceModel,
    rows: Seq<RowModel>,
    node: int,
    condition: bool,
    count: int,
    steps: nat,
    symbol: SymbolModel,
) -> (value: int)
    requires
        0 <= node < rows.len(),
        count <= branches_of(rows, node, condition).len(),
        branch_flow(
            index,
            place,
            rows,
            node,
            branches_of(rows, node, condition),
            condition,
            count,
            steps,
        ).0.candidates.contains(symbol),
    ensures
        branch_may_be(index, place, rows, node, condition, steps, value, symbol),
    decreases count,
{
    let branches = branches_of(rows, node, condition);
    let (before, valued) = branch_flow(
        index,
        place,
        rows,
        node,
        branches,
        condition,
        count - 1,
        steps,
    );
    if count <= 0 {
        0
    } else {
        found_values_are_values(rows, node, condition, count - 1);
        doubts_take_nothing_away(before, UnresolvedReason::UnsupportedConstruct);
        match child_by_field(rows, branches[count - 1], branch_field(condition)) {
            Some(last) => {
                let part = flow_or_doubt(node_flow(index, place, rows, last, steps));
                merged_flows_may_be_both(before, part);
                assert(merged_flow(before, part).candidates.contains(symbol));
                if before.candidates.contains(symbol) {
                    branch_flows_come_from_branches(
                        index,
                        place,
                        rows,
                        node,
                        condition,
                        count - 1,
                        steps,
                        symbol,
                    )
                } else {
                    assert(is_branch_value(rows, node, condition, branches[count - 1], last));
                    last
                }
            },
            None => branch_flows_come_from_branches(
                index,
                place,
                rows,
                node,
                condition,
                count - 1,
                steps,
                symbol,
            ),
        }
    }
}

proof fn known_branches_are_known_together(
    index: IndexModel,
    place: PlaceModel,
    rows: Seq<RowModel>,
    node: int,
    condition: bool,
    count: int,
    steps: nat,
)
    requires
        0 <= node < rows.len(),
        0 <= count <= branches_of(rows, node, condition).len(),
        branches_are_known(index, place, rows, node, condition, steps),
    ensures
        branch_flow(
            index,
            place,
            rows,
            node,
            branches_of(rows, node, condition),
            condition,
            count,
            steps,
        ).0.reasons.len() == 0,
        branch_flow(
            index,
            place,
            rows,
            node,
            branches_of(rows, node, condition),
            condition,
            count,
            steps,
        ).1 == count,
    decreases count,
{
    let branches = branches_of(rows, node, condition);
    if count > 0 {
        known_branches_are_known_together(index, place, rows, node, condition, count - 1, steps);
        found_values_are_values(rows, node, condition, count - 1);
        let branch = branches[count - 1];
        let value = choose|value: int|
            {
                &&& #[trigger] is_branch_value(rows, node, condition, branch, value)
                &&& node_flow(index, place, rows, value, steps) is Some
                &&& node_flow(index, place, rows, value, steps)->0.reasons.len() == 0
            };
        branch_values_are_inside(rows, node, condition, branch, value);
    }
}

/// A condition may be nothing but what one of its clauses may be.
pub proof fn conditions_are_nothing_but_clauses(
    index: IndexModel,
    place: PlaceModel,
    rows: Seq<RowModel>,
    node: int,
    steps: nat,
    symbol: SymbolModel,
)
    requires
        0 <= node < rows.len(),
        rows[node].kind == "if_expression"@,
        node_flow(index, place, rows, node, steps) is Some,
        node_flow(index, place, rows, node, steps)->0.candidates.contains(symbol),
    ensures
        exists|value: int| #[trigger]
            branch_may_be(index, place, rows, node, true, steps, value, symbol),
{
    kinds_are_apart();
    assert(rows[node].kind.len() >= 0);
    let branches = branches_of(rows, node, true);
    let count = branches.len() as int;
    doubts_take_nothing_away(
        branch_flow(index, place, rows, node, branches, true, count, steps).0,
        UnresolvedReason::OpaqueInput,
    );
    let value = branch_flows_come_from_branches(
        index,
        place,
        rows,
        node,
        true,
        count,
        steps,
        symbol,
    );
}

/// A match may be nothing but what one of its cases may be.
pub proof fn matches_are_nothing_but_cases(
    index: IndexModel,
    place: PlaceModel,
    rows: Seq<RowModel>,
    node: int,
    steps: nat,
    symbol: SymbolModel,
)
    requires
        0 <= node < rows.len(),
        rows[node].kind == "match_expression"@,
        node_flow(index, place, rows, node, steps) is Some,
        node_flow(index, place, rows, node, steps)->0.candidates.contains(symbol),
    ensures
        exists|value: int| #[trigger]
            branch_may_be(index, place, rows, node, false, steps, value, symbol),
{
    kinds_are_apart();
    assert(rows[node].kind.len() >= 0);
    let branches = branches_of(rows, node, false);
    let value = branch_flows_come_from_branches(
        index,
        place,
        rows,
        node,
        false,
        branches.len() as int,
        steps,
        symbol,
    );
}

/// A condition with two clauses that are known to the end is known to the end.
pub proof fn known_clauses_make_known_conditions(
    index: IndexModel,
    place: PlaceModel,
    rows: Seq<RowModel>,
    node: int,
    first: int,
    second: int,
    steps: nat,
)
    requires
        0 <= node < rows.len(),
        rows[node].kind == "if_expression"@,
        is_clause(rows, node, first),
        is_clause(rows, node, second),
        first != second,
        branches_are_known(index, place, rows, node, true, steps),
    ensures
        node_flow(index, place, rows, node, steps) is Some,
        node_flow(index, place, rows, node, steps)->0.reasons.len() == 0,
{
    kinds_are_apart();
    assert(rows[node].kind.len() >= 0);
    let branches = branches_of(rows, node, true);
    known_branches_are_known_together(
        index,
        place,
        rows,
        node,
        true,
        branches.len() as int,
        steps,
    );
    branches_are_listed(rows, node, true, first);
    branches_are_listed(rows, node, true, second);
    let one = choose|at: int| 0 <= at < branches.len() && branches[at] == first;
    let other = choose|at: int| 0 <= at < branches.len() && branches[at] == second;
    assert(one != other);
}

/// A condition with one clause alone is not known to the end.
pub proof fn lone_clauses_leave_a_doubt(
    index: IndexModel,
    place: PlaceModel,
    rows: Seq<RowModel>,
    node: int,
    clause: int,
    steps: nat,
)
    requires
        0 <= node < rows.len(),
        rows[node].kind == "if_expression"@,
        forall|other: int| #[trigger] is_clause(rows, node, other) ==> other == clause,
    ensures
        node_flow(index, place, rows, node, steps) is Some,
        node_flow(index, place, rows, node, steps)->0.reasons.contains(
            UnresolvedReason::OpaqueInput,
        ),
{
    kinds_are_apart();
    assert(rows[node].kind.len() >= 0);
    let branches = branches_of(rows, node, true);
    let count = branches.len() as int;
    let (flow, valued) = branch_flow(index, place, rows, node, branches, true, count, steps);
    doubts_take_nothing_away(flow, UnresolvedReason::OpaqueInput);
    branches_are_apart(rows, node, true);
    if count > 1 {
        found_values_are_values(rows, node, true, 0);
        found_values_are_values(rows, node, true, 1);
        assert(branches[0] < branches[1]);
    }
    valued_are_no_more(index, place, rows, node, true, count, steps);
}

proof fn valued_are_no_more(
    index: IndexModel,
    place: PlaceModel,
    rows: Seq<RowModel>,
    node: int,
    condition: bool,
    count: int,
    steps: nat,
)
    requires
        0 <= count,
    ensures
        branch_flow(
            index,
            place,
            rows,
            node,
            branches_of(rows, node, condition),
            condition,
            count,
            steps,
        ).1 <= count,
    decreases count,
{
    if count > 0 {
        valued_are_no_more(index, place, rows, node, condition, count - 1, steps);
    }
}

proof fn listed_in_order(rows: Seq<RowModel>, at: int, end: int)
    requires
        0 <= at,
    ensures
        forall|one: int, other: int|
            0 <= one < other < named_from(rows, at, end).len() ==> #[trigger] named_from(
                rows,
                at,
                end,
            )[one] < #[trigger] named_from(rows, at, end)[other],
    decreases rows.len() - at,
{
    if at < end && at < rows.len() {
        ends_are_behind(rows, at);
        let next = end_of(rows, at);
        listed_in_order(rows, next, end);
        named_are_behind(rows, next, end);
        let rest = named_from(rows, next, end);
        let all = named_from(rows, at, end);
        assert forall|one: int, other: int|
            0 <= one < other < all.len() implies #[trigger] all[one] < #[trigger] all[other] by {
            if rows[at].named {
                assert(all[other] == rest[other - 1]);
                if one > 0 {
                    assert(all[one] == rest[one - 1]);
                }
            }
        }
    }
}

proof fn kinds_in_order(rows: Seq<RowModel>, nodes: Seq<int>, kind: Seq<char>, count: int)
    requires
        0 <= count <= nodes.len(),
        forall|one: int, other: int|
            0 <= one < other < nodes.len() ==> #[trigger] nodes[one] < #[trigger] nodes[other],
    ensures
        forall|one: int, other: int|
            0 <= one < other < of_kind(rows, nodes, kind, count).len() ==> #[trigger] of_kind(
                rows,
                nodes,
                kind,
                count,
            )[one] < #[trigger] of_kind(rows, nodes, kind, count)[other],
        forall|at: int|
            0 <= at < of_kind(rows, nodes, kind, count).len() ==> count > 0 && #[trigger] of_kind(
                rows,
                nodes,
                kind,
                count,
            )[at] <= nodes[count - 1],
    decreases count,
{
    if count > 0 {
        kinds_in_order(rows, nodes, kind, count - 1);
        let before = of_kind(rows, nodes, kind, count - 1);
        assert forall|at: int| 0 <= at < before.len() implies #[trigger] before[at] < nodes[count
            - 1] by {
            assert(before[at] <= nodes[count - 2]);
        }
    }
}

/// The children of a kind come in the order in which they stand.
pub proof fn children_in_order(rows: Seq<RowModel>, node: int, kind: Seq<char>)
    requires
        0 <= node < rows.len(),
    ensures
        forall|one: int, other: int|
            0 <= one < other < children_of_kind(rows, node, kind).len()
                ==> #[trigger] children_of_kind(rows, node, kind)[one]
                < #[trigger] children_of_kind(rows, node, kind)[other],
{
    let nodes = named_children(rows, node);
    listed_in_order(rows, node + 1, end_of(rows, node));
    kinds_in_order(rows, nodes, kind, nodes.len() as int);
}

proof fn kept_in_order(rows: Seq<RowModel>, nodes: Seq<int>, condition: bool, count: int)
    requires
        0 <= count <= nodes.len(),
        forall|one: int, other: int|
            0 <= one < other < nodes.len() ==> #[trigger] nodes[one] < #[trigger] nodes[other],
    ensures
        forall|one: int, other: int|
            0 <= one < other < branches_to(rows, nodes, condition, count).len()
                ==> #[trigger] branches_to(rows, nodes, condition, count)[one]
                < #[trigger] branches_to(rows, nodes, condition, count)[other],
        forall|at: int|
            0 <= at < branches_to(rows, nodes, condition, count).len() ==> count > 0
                && #[trigger] branches_to(rows, nodes, condition, count)[at] <= nodes[count - 1],
    decreases count,
{
    if count > 0 {
        kept_in_order(rows, nodes, condition, count - 1);
        let before = branches_to(rows, nodes, condition, count - 1);
        assert forall|at: int| 0 <= at < before.len() implies #[trigger] before[at] < nodes[count
            - 1] by {
            assert(before[at] <= nodes[count - 2]);
        }
    }
}

proof fn branches_are_apart(rows: Seq<RowModel>, node: int, condition: bool)
    requires
        0 <= node < rows.len(),
    ensures
        forall|one: int, other: int|
            0 <= one < other < branches_of(rows, node, condition).len()
                ==> #[trigger] branches_of(rows, node, condition)[one]
                < #[trigger] branches_of(rows, node, condition)[other],
{
    let nodes = named_children(rows, node);
    listed_in_order(rows, node + 1, end_of(rows, node));
    kept_in_order(rows, nodes, condition, nodes.len() as int);
}

/// Parentheses, a type, a coercion, local bindings and a local `open` around an
/// expression do not change what it may be.
pub proof fn wrappers_do_not_matter(
    index: IndexModel,
    place: PlaceModel,
    rows: Seq<RowModel>,
    node: int,
    inner: int,
    steps: nat,
)
    requires
        0 <= node < rows.len(),
        ({
            let kind = rows[node].kind;
            kind == "expression_item"@ || kind == "parenthesized_expression"@ || kind
                == "typed_expression"@ || kind == "coercion_expression"@ || kind
                == "let_expression"@ || kind == "local_open_expression"@
        }),
        is_field_of(rows, node, "body"@, inner) || (is_field_of(rows, node, "expression"@, inner)
            && forall|other: int| !#[trigger] is_field_of(rows, node, "body"@, other)),
    ensures
        node_flow(index, place, rows, node, steps) == node_flow(index, place, rows, inner, steps),
        forall|names: Seq<Seq<char>>| #[trigger]
            outcomes(rows, node, names) == outcomes(rows, inner, names),
{
    wrappers_are_apart(rows[node].kind);
    if is_field_of(rows, node, "body"@, inner) {
        fields_are_found(rows, node, "body"@, inner);
    } else {
        fields_are_found(rows, node, "expression"@, inner);
        match child_by_field(rows, node, "body"@) {
            Some(other) => {
                found_fields_are_fields(rows, node, "body"@, other);
            },
            None => {},
        }
    }
}

proof fn wrappers_are_apart(kind: Seq<char>)
    requires
        kind == "expression_item"@ || kind == "parenthesized_expression"@ || kind
            == "typed_expression"@ || kind == "coercion_expression"@ || kind == "let_expression"@
            || kind == "local_open_expression"@,
    ensures
        kind != "fun_expression"@,
        kind != "function_expression"@,
        kind != "application_expression"@,
        kind != "field_get_expression"@,
        kind != "value_path"@,
        kind != "value_name"@,
        kind != "parenthesized_operator"@,
{
    reveal_strlit("fun_expression");
    reveal_strlit("function_expression");
    reveal_strlit("application_expression");
    reveal_strlit("field_get_expression");
    reveal_strlit("value_path");
    reveal_strlit("value_name");
    reveal_strlit("parenthesized_operator");
    reveal_strlit("expression_item");
    reveal_strlit("parenthesized_expression");
    reveal_strlit("typed_expression");
    reveal_strlit("coercion_expression");
    reveal_strlit("let_expression");
    reveal_strlit("local_open_expression");
    assert("fun_expression"@.len() == 14 && "function_expression"@.len() == 19);
    assert("application_expression"@.len() == 22 && "field_get_expression"@.len() == 20);
    assert("value_path"@.len() == 10 && "value_name"@.len() == 10);
    assert("parenthesized_operator"@.len() == 22 && "expression_item"@.len() == 15);
    assert("parenthesized_expression"@.len() == 24 && "typed_expression"@.len() == 16);
    assert("coercion_expression"@.len() == 19 && "let_expression"@.len() == 14);
    assert("local_open_expression"@.len() == 21);
    assert("fun_expression"@[0] != "let_expression"@[0]);
    assert("function_expression"@[0] != "coercion_expression"@[0]);
}

proof fn text_position_is_inside(values: Seq<Seq<char>>, value: Seq<char>, index: nat)
    requires
        index <= values.len(),
    ensures
        text_position(values, value, index) <= values.len(),
    decreases values.len() - index,
{
    if index < values.len() && crate::text::text_less(values[index as int], value) {
        text_position_is_inside(values, value, index + 1);
    }
}

/// A set of texts with one more holds that one and those of the set.
pub proof fn added_text_is_there(values: Seq<Seq<char>>, value: Seq<char>, text: Seq<char>)
    ensures
        with_text(values, value).contains(text) == (values.contains(text) || text == value),
{
    text_position_is_inside(values, value, 0);
    let place = text_position(values, value, 0) as int;
    if place < values.len() && values[place] == value {
        assert(values.contains(value));
    } else {
        insertion_holds(values, place, value, text);
    }
}

proof fn branch_outcomes_are_added(
    rows: Seq<RowModel>,
    node: int,
    condition: bool,
    names: Seq<Seq<char>>,
    count: int,
    text: Seq<char>,
)
    requires
        0 <= node < rows.len(),
        0 <= count <= branches_of(rows, node, condition).len(),
    ensures
        ({
            let branches = branches_of(rows, node, condition);
            branch_outcomes(rows, node, branches, condition, names, count).contains(text) == (
            names.contains(text) || branch_outcomes(
                rows,
                node,
                branches,
                condition,
                Seq::empty(),
                count,
            ).contains(text))
        }),
    decreases rows.len() - node, 0int, count,
{
    let branches = branches_of(rows, node, condition);
    if count > 0 {
        branch_outcomes_are_added(rows, node, condition, names, count - 1, text);
        found_values_are_values(rows, node, condition, count - 1);
        let branch = branches[count - 1];
        match child_by_field(rows, branch, branch_field(condition)) {
            Some(value) => {
                outcomes_are_added(
                    rows,
                    value,
                    branch_outcomes(rows, node, branches, condition, names, count - 1),
                    text,
                );
                outcomes_are_added(
                    rows,
                    value,
                    branch_outcomes(rows, node, branches, condition, Seq::empty(), count - 1),
                    text,
                );
            },
            None => {},
        }
    }
}

/// The names that an expression can give are added to those that are there.
pub proof fn outcomes_are_added(
    rows: Seq<RowModel>,
    node: int,
    names: Seq<Seq<char>>,
    text: Seq<char>,
)
    requires
        0 <= node < rows.len(),
    ensures
        outcomes(rows, node, names).contains(text) == (names.contains(text) || outcomes(
            rows,
            node,
            Seq::empty(),
        ).contains(text)),
    decreases rows.len() - node, 1int, 0int,
{
    let none = Seq::<Seq<char>>::empty();
    added_text_is_there(names, plain_text(rows, node), text);
    added_text_is_there(none, plain_text(rows, node), text);
    if crate::ocaml::expressions::is_value_node(rows, node) {
    } else if is_wrapper(rows, node) {
        match wrapped_node(rows, node) {
            Some(inner) => {
                fields_are_behind(rows, node + 1, end_of(rows, node), "body"@);
                fields_are_behind(rows, node + 1, end_of(rows, node), "expression"@);
                named_are_behind(rows, node + 1, end_of(rows, node));
                outcomes_are_added(rows, inner, names, text);
            },
            None => {},
        }
    } else if rows[node].kind == "sequence_expression"@ {
        match last_named(rows, node) {
            Some(last) => {
                named_are_behind(rows, node + 1, end_of(rows, node));
                outcomes_are_added(rows, last, names, text);
            },
            None => {},
        }
    } else if rows[node].kind == "if_expression"@ {
        let branches = branches_of(rows, node, true);
        branch_outcomes_are_added(rows, node, true, names, branches.len() as int, text);
    } else if rows[node].kind == "match_expression"@ || rows[node].kind
        == "function_expression"@ {
        let branches = branches_of(rows, node, false);
        branch_outcomes_are_added(rows, node, false, names, branches.len() as int, text);
    }
}

/// Whether a branch can give a name.
pub open spec fn branch_gives(
    rows: Seq<RowModel>,
    node: int,
    condition: bool,
    branch: int,
    value: int,
    text: Seq<char>,
) -> bool {
    is_branch_value(rows, node, condition, branch, value) && outcomes(
        rows,
        value,
        Seq::empty(),
    ).contains(text)
}

proof fn branch_outcomes_are_reached(
    rows: Seq<RowModel>,
    node: int,
    condition: bool,
    count: int,
    at: int,
    value: int,
    text: Seq<char>,
)
    requires
        0 <= node < rows.len(),
        0 <= at < count <= branches_of(rows, node, condition).len(),
        branch_gives(
            rows,
            node,
            condition,
            branches_of(rows, node, condition)[at],
            value,
            text,
        ),
    ensures
        branch_outcomes(
            rows,
            node,
            branches_of(rows, node, condition),
            condition,
            Seq::empty(),
            count,
        ).contains(text),
    decreases count,
{
    let branches = branches_of(rows, node, condition);
    let before = branch_outcomes(rows, node, branches, condition, Seq::empty(), count - 1);
    found_values_are_values(rows, node, condition, count - 1);
    branch_values_are_inside(rows, node, condition, branches[at], value);
    if at < count - 1 {
        branch_outcomes_are_reached(rows, node, condition, count - 1, at, value, text);
    }
    match child_by_field(rows, branches[count - 1], branch_field(condition)) {
        Some(last) => {
            outcomes_are_added(rows, last, before, text);
        },
        None => {},
    }
}

proof fn branch_outcomes_come_from_branches(
    rows: Seq<RowModel>,
    node: int,
    condition: bool,
    count: int,
    text: Seq<char>,
) -> (found: (int, int))
    requires
        0 <= node < rows.len(),
        0 <= count <= branches_of(rows, node, condition).len(),
        branch_outcomes(
            rows,
            node,
            branches_of(rows, node, condition),
            condition,
            Seq::empty(),
            count,
        ).contains(text),
    ensures
        branch_gives(rows, node, condition, found.0, found.1, text),
    decreases count,
{
    let branches = branches_of(rows, node, condition);
    if count <= 0 {
        (0, 0)
    } else {
        let before = branch_outcomes(rows, node, branches, condition, Seq::empty(), count - 1);
        found_values_are_values(rows, node, condition, count - 1);
        match child_by_field(rows, branches[count - 1], branch_field(condition)) {
            Some(last) => {
                outcomes_are_added(rows, last, before, text);
                if before.contains(text) {
                    branch_outcomes_come_from_branches(rows, node, condition, count - 1, text)
                } else {
                    (branches[count - 1], last)
                }
            },
            None => branch_outcomes_come_from_branches(rows, node, condition, count - 1, text),
        }
    }
}

/// The names that a condition, a match or a function by cases can give are
/// those that one of its branches can give, and no others.
pub proof fn branches_give_the_names(
    rows: Seq<RowModel>,
    node: int,
    condition: bool,
    names: Seq<Seq<char>>,
    text: Seq<char>,
)
    requires
        0 <= node < rows.len(),
        if condition {
            rows[node].kind == "if_expression"@
        } else {
            rows[node].kind == "match_expression"@ || rows[node].kind == "function_expression"@
        },
    ensures
        outcomes(rows, node, names).contains(text) == (names.contains(text)
            || exists|branch: int, value: int| #[trigger]
            branch_gives(rows, node, condition, branch, value, text)),
{
    kinds_are_apart();
    functions_are_no_wrappers();
    assert(rows[node].kind.len() >= 0);
    outcomes_are_added(rows, node, names, text);
    let branches = branches_of(rows, node, condition);
    let count = branches.len() as int;
    if branch_outcomes(rows, node, branches, condition, Seq::empty(), count).contains(text) {
        let found = branch_outcomes_come_from_branches(rows, node, condition, count, text);
        assert(branch_gives(rows, node, condition, found.0, found.1, text));
    }
    if exists|branch: int, value: int| #[trigger]
        branch_gives(rows, node, condition, branch, value, text) {
        let (branch, value) = choose|branch: int, value: int| #[trigger]
            branch_gives(rows, node, condition, branch, value, text);
        branch_values_are_inside(rows, node, condition, branch, value);
        let at = choose|at: int| 0 <= at < branches.len() && branches[at] == branch;
        branch_outcomes_are_reached(rows, node, condition, count, at, value, text);
    }
}

proof fn functions_are_no_wrappers()
    ensures
        "function_expression"@ != "value_path"@,
        "function_expression"@ != "value_name"@,
        "function_expression"@ != "parenthesized_operator"@,
        "function_expression"@ != "expression_item"@,
        "function_expression"@ != "parenthesized_expression"@,
        "function_expression"@ != "typed_expression"@,
        "function_expression"@ != "coercion_expression"@,
        "function_expression"@ != "let_expression"@,
        "function_expression"@ != "local_open_expression"@,
        "function_expression"@ != "sequence_expression"@,
        "function_expression"@ != "if_expression"@,
{
    reveal_strlit("function_expression");
    reveal_strlit("value_path");
    reveal_strlit("value_name");
    reveal_strlit("parenthesized_operator");
    reveal_strlit("expression_item");
    reveal_strlit("parenthesized_expression");
    reveal_strlit("typed_expression");
    reveal_strlit("coercion_expression");
    reveal_strlit("let_expression");
    reveal_strlit("local_open_expression");
    reveal_strlit("sequence_expression");
    reveal_strlit("if_expression");
    assert("function_expression"@[0] == 'f');
    assert("value_path"@[0] == 'v' && "value_name"@[0] == 'v');
    assert("parenthesized_operator"@[0] == 'p' && "expression_item"@[0] == 'e');
    assert("parenthesized_expression"@[0] == 'p' && "typed_expression"@[0] == 't');
    assert("coercion_expression"@[0] == 'c' && "let_expression"@[0] == 'l');
    assert("local_open_expression"@[0] == 'l' && "sequence_expression"@[0] == 's');
    assert("if_expression"@[0] == 'i');
}

/// The name of a value can give itself.
pub proof fn names_give_themselves(rows: Seq<RowModel>, node: int)
    requires
        0 <= node < rows.len(),
        rows[node].kind == "value_path"@ || rows[node].kind == "value_name"@ || rows[node].kind
            == "parenthesized_operator"@,
    ensures
        forall|text: Seq<char>| #[trigger]
            outcomes(rows, node, Seq::empty()).contains(text) == (text == plain_text(rows, node)),
{
    assert forall|text: Seq<char>| #[trigger]
        outcomes(rows, node, Seq::empty()).contains(text) == (text == plain_text(rows, node)) by {
        added_text_is_there(Seq::empty(), plain_text(rows, node), text);
    }
}

} // verus!
