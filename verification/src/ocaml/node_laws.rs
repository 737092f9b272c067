//! Where the nodes of an OCaml syntax tree stand, told by their depths alone.
use crate::ocaml::syntax::{
    child_by_field, deeper_end, end_of, ends_are_behind, field_from, named_children, named_from,
    RowModel,
};
use vstd::prelude::*;

verus! {

/// Whether a node is another one or lies somewhere in it.
pub open spec fn lies_in(rows: Seq<RowModel>, node: int, inner: int) -> bool {
    0 <= node <= inner < rows.len() && forall|between: int|
        node < between <= inner ==> (#[trigger] rows[between]).depth > rows[node].depth
}

/// Whether a node is a child of another one: it lies in it, and in no other
/// node that lies in it.
pub open spec fn is_child(rows: Seq<RowModel>, node: int, child: int) -> bool {
    node < child && lies_in(rows, node, child) && forall|between: int|
        node < between < child ==> !#[trigger] lies_in(rows, between, child)
}

/// Whether a node is the first child of another one that is a field.
pub open spec fn is_field_of(rows: Seq<RowModel>, node: int, name: Seq<char>, child: int) -> bool {
    is_child(rows, node, child) && rows[child].field == Some(name) && forall|other: int|
        other < child && #[trigger] is_child(rows, node, other) ==> rows[other].field != Some(name)
}

proof fn deeper_rows(rows: Seq<RowModel>, depth: u32, at: int)
    requires
        0 <= at <= rows.len(),
    ensures
        forall|between: int|
            at <= between < deeper_end(rows, depth, at) ==> (#[trigger] rows[between]).depth > depth,
        deeper_end(rows, depth, at) < rows.len() ==> rows[deeper_end(rows, depth, at)].depth
            <= depth,
    decreases rows.len() - at,
{
    if at < rows.len() && rows[at].depth > depth {
        deeper_rows(rows, depth, at + 1);
    }
}

/// What lies in a node is what stands in front of its end.
pub proof fn ends_tell_what_lies_in(rows: Seq<RowModel>, node: int, inner: int)
    requires
        0 <= node < rows.len(),
        node <= inner,
    ensures
        lies_in(rows, node, inner) == (inner < end_of(rows, node)),
        node < end_of(rows, node) <= rows.len(),
{
    ends_are_behind(rows, node);
    deeper_rows(rows, rows[node].depth, node + 1);
    let end = end_of(rows, node);
    if inner >= end && lies_in(rows, node, inner) {
        assert(rows[end].depth > rows[node].depth);
    }
}

/// What lies in a part of a node lies in the node.
pub proof fn lying_in_is_transitive(rows: Seq<RowModel>, node: int, part: int, inner: int)
    requires
        lies_in(rows, node, part),
        lies_in(rows, part, inner),
    ensures
        lies_in(rows, node, inner),
{
    if node < part {
        assert(rows[part].depth > rows[node].depth);
        assert forall|between: int| node < between <= inner implies (#[trigger] rows[between]).depth
            > rows[node].depth by {
            if between > part {
                assert(rows[between].depth > rows[part].depth);
            }
        }
    }
}

/// A node that stands between another one and what lies in it lies in it too.
pub proof fn what_is_between_lies_in(rows: Seq<RowModel>, node: int, between: int, inner: int)
    requires
        lies_in(rows, node, inner),
        node <= between <= inner,
    ensures
        lies_in(rows, node, between),
{
}

/// Whether the children from `at` on are still to come: `at` is a child, or
/// stands behind the node.
pub open spec fn at_child(rows: Seq<RowModel>, node: int, at: int) -> bool {
    0 <= node < at && node < rows.len() && (at >= end_of(rows, node) || is_child(rows, node, at))
}

/// The row behind a node is its first child, if it has one.
pub proof fn first_row_is_a_child(rows: Seq<RowModel>, node: int)
    requires
        0 <= node < rows.len(),
    ensures
        at_child(rows, node, node + 1),
{
    ends_tell_what_lies_in(rows, node, node + 1);
}

/// Behind a child comes the next one.
pub proof fn next_row_is_a_child(rows: Seq<RowModel>, node: int, at: int)
    requires
        is_child(rows, node, at),
    ensures
        at < end_of(rows, at) <= end_of(rows, node),
        at_child(rows, node, end_of(rows, at)),
{
    let end = end_of(rows, node);
    let next = end_of(rows, at);
    ends_tell_what_lies_in(rows, node, at);
    ends_tell_what_lies_in(rows, at, at);
    if next > end {
        ends_tell_what_lies_in(rows, at, end);
        lying_in_is_transitive(rows, node, at, end);
        ends_tell_what_lies_in(rows, node, end);
    }
    if next < end {
        ends_tell_what_lies_in(rows, node, next);
        assert forall|between: int| node < between < next implies !#[trigger] lies_in(
            rows,
            between,
            next,
        ) by {
            if lies_in(rows, between, next) {
                if between < at {
                    what_is_between_lies_in(rows, between, at, next);
                    assert(lies_in(rows, between, at));
                } else {
                    ends_tell_what_lies_in(rows, at, between);
                    lying_in_is_transitive(rows, at, between, next);
                    ends_tell_what_lies_in(rows, at, next);
                }
            }
        }
    }
}

/// No child begins inside another child.
pub proof fn children_are_apart(rows: Seq<RowModel>, node: int, at: int, child: int)
    requires
        is_child(rows, node, at),
        is_child(rows, node, child),
        at < child,
    ensures
        end_of(rows, at) <= child,
{
    ends_tell_what_lies_in(rows, at, child);
}

proof fn fields_are_found_from(
    rows: Seq<RowModel>,
    node: int,
    at: int,
    name: Seq<char>,
    child: int,
)
    requires
        at_child(rows, node, at),
        is_field_of(rows, node, name, child),
        at <= child,
    ensures
        field_from(rows, at, end_of(rows, node), name) == Some(child),
    decreases rows.len() - at,
{
    ends_tell_what_lies_in(rows, node, child);
    if at < child {
        assert(is_child(rows, node, at));
        next_row_is_a_child(rows, node, at);
        children_are_apart(rows, node, at, child);
        fields_are_found_from(rows, node, end_of(rows, at), name, child);
    }
}

/// A field of a node is found.
pub proof fn fields_are_found(rows: Seq<RowModel>, node: int, name: Seq<char>, child: int)
    requires
        is_field_of(rows, node, name, child),
    ensures
        child_by_field(rows, node, name) == Some(child),
{
    first_row_is_a_child(rows, node);
    fields_are_found_from(rows, node, node + 1, name, child);
}

proof fn found_fields_from(rows: Seq<RowModel>, node: int, at: int, name: Seq<char>, child: int)
    requires
        at_child(rows, node, at),
        field_from(rows, at, end_of(rows, node), name) == Some(child),
        forall|other: int|
            other < at && #[trigger] is_child(rows, node, other) ==> rows[other].field != Some(
                name,
            ),
    ensures
        is_field_of(rows, node, name, child),
    decreases rows.len() - at,
{
    if at < end_of(rows, node) {
        ends_tell_what_lies_in(rows, node, node);
        if rows[at].field != Some(name) {
            next_row_is_a_child(rows, node, at);
            let next = end_of(rows, at);
            assert forall|other: int|
                other < next && #[trigger] is_child(rows, node, other) implies rows[other].field
                != Some(name) by {
                if other > at {
                    children_are_apart(rows, node, at, other);
                }
            }
            found_fields_from(rows, node, next, name, child);
        }
    }
}

/// What is found as a field of a node is one.
pub proof fn found_fields_are_fields(rows: Seq<RowModel>, node: int, name: Seq<char>, child: int)
    requires
        0 <= node < rows.len(),
        child_by_field(rows, node, name) == Some(child),
    ensures
        is_field_of(rows, node, name, child),
{
    first_row_is_a_child(rows, node);
    found_fields_from(rows, node, node + 1, name, child);
}

proof fn named_are_listed_from(rows: Seq<RowModel>, node: int, at: int, child: int)
    requires
        at_child(rows, node, at),
    ensures
        named_from(rows, at, end_of(rows, node)).contains(child) == (at <= child && is_child(
            rows,
            node,
            child,
        ) && rows[child].named),
    decreases rows.len() - at,
{
    let end = end_of(rows, node);
    let all = named_from(rows, at, end);
    ends_tell_what_lies_in(rows, node, node);
    if at < end {
        next_row_is_a_child(rows, node, at);
        let next = end_of(rows, at);
        named_are_listed_from(rows, node, next, child);
        let rest = named_from(rows, next, end);
        if at < child && is_child(rows, node, child) {
            children_are_apart(rows, node, at, child);
        }
        if rows[at].named {
            assert(all =~= seq![at] + rest);
            assert(all[0] == at);
            if rest.contains(child) {
                let k = choose|k: int| 0 <= k < rest.len() && rest[k] == child;
                assert(all[k + 1] == child);
            }
            if all.contains(child) {
                let k = choose|k: int| 0 <= k < all.len() && all[k] == child;
                if k > 0 {
                    assert(rest[k - 1] == child);
                }
            }
        } else {
            assert(all =~= rest);
        }
    } else {
        if at <= child && is_child(rows, node, child) {
            ends_tell_what_lies_in(rows, node, child);
        }
    }
}

/// The named children of a node are its children that are named.
pub proof fn named_children_are_listed(rows: Seq<RowModel>, node: int, child: int)
    requires
        0 <= node < rows.len(),
    ensures
        named_children(rows, node).contains(child) == (is_child(rows, node, child)
            && rows[child].named),
{
    first_row_is_a_child(rows, node);
    named_are_listed_from(rows, node, node + 1, child);
}

} // verus!
