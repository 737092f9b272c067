//! Which calls an OCaml function makes: all those that run with its body, and
//! no others.
use crate::lists::{joint_items, pushed_items};
use crate::model::{
    source_site, LabelModel, SiteModel, SyntaxModel, TargetModel, UnresolvedReason,
};
use crate::ocaml::expressions::{
    application_call, binds_function, calls_among, calls_in_body, calls_within, dotted,
    is_function_node, opened_above, path_label, plain_text,
};
use crate::ocaml::node_laws::{
    at_child, ends_tell_what_lies_in, fields_are_found, first_row_is_a_child,
    found_fields_are_fields, is_child, is_field_of, lies_in, lying_in_is_transitive,
    named_children_are_listed, next_row_is_a_child, what_is_between_lies_in,
};
use crate::ocaml::syntax::{
    child_by_field, children_of_kind, end_of, named_children, of_kind, span_of, RowModel,
};
use vstd::prelude::*;

verus! {

/// Whether a node is a binding that has parameters.
pub open spec fn has_parameters(rows: Seq<RowModel>, node: int) -> bool {
    rows[node].kind == "let_binding"@ && exists|child: int|
        #[trigger] is_child(rows, node, child) && rows[child].named && rows[child].kind
            == "parameter"@
}

/// Whether a node is a function of its own, to which the calls in it belong.
pub open spec fn is_own_function(rows: Seq<RowModel>, node: int) -> bool {
    rows[node].kind == "fun_expression"@ || rows[node].kind == "function_expression"@
        || has_parameters(rows, node)
}

/// Whether a node is part of a body: it lies in it, and no function of its own
/// stands between them.
pub open spec fn runs_with(rows: Seq<RowModel>, body: int, node: int) -> bool {
    lies_in(rows, body, node) && forall|between: int|
        body < between && #[trigger] lies_in(rows, between, node) ==> rows[between].named
            && !is_own_function(rows, between)
}

proof fn kinds_are_kept(rows: Seq<RowModel>, nodes: Seq<int>, kind: Seq<char>, count: int, node: int)
    requires
        0 <= count <= nodes.len(),
    ensures
        of_kind(rows, nodes, kind, count).contains(node) == (nodes.take(count).contains(node)
            && rows[node].kind == kind),
    decreases count,
{
    if count > 0 {
        kinds_are_kept(rows, nodes, kind, count - 1, node);
        let before = of_kind(rows, nodes, kind, count - 1);
        let shorter = nodes.take(count - 1);
        let longer = nodes.take(count);
        let last = nodes[count - 1];
        assert(longer =~= shorter.push(last));
        pushed_items(shorter, last, node);
        pushed_items(before, last, node);
    }
}

/// The children of a kind are the named children that are of it.
pub proof fn children_of_a_kind(rows: Seq<RowModel>, node: int, kind: Seq<char>, child: int)
    requires
        0 <= node < rows.len(),
    ensures
        children_of_kind(rows, node, kind).contains(child) == (is_child(rows, node, child)
            && rows[child].named && rows[child].kind == kind),
{
    let nodes = named_children(rows, node);
    kinds_are_kept(rows, nodes, kind, nodes.len() as int, child);
    assert(nodes.take(nodes.len() as int) =~= nodes);
    named_children_are_listed(rows, node, child);
}

/// The functions that stop a search for calls are those that own them.
proof fn own_functions_are_told(rows: Seq<RowModel>, node: int)
    requires
        0 <= node < rows.len(),
    ensures
        (is_function_node(rows, node) || binds_function(rows, node)) == is_own_function(rows, node),
        binds_function(rows, node) == has_parameters(rows, node),
{
    let found = children_of_kind(rows, node, "parameter"@);
    if rows[node].kind == "let_binding"@ {
        if found.len() > 0 {
            assert(found.contains(found[0]));
            children_of_a_kind(rows, node, "parameter"@, found[0]);
            assert(is_child(rows, node, found[0]));
        }
        if has_parameters(rows, node) {
            let child = choose|child: int|
                #[trigger] is_child(rows, node, child) && rows[child].named && rows[child].kind
                    == "parameter"@;
            children_of_a_kind(rows, node, "parameter"@, child);
        }
    }
}

proof fn calls_within_are_reached(
    rows: Seq<RowModel>,
    file: Seq<char>,
    top: int,
    node: int,
    site: SiteModel,
)
    requires
        runs_with(rows, top, node),
        !is_own_function(rows, top),
        rows[node].kind == "application_expression"@,
        application_call(rows, file, node) == Some(site),
    ensures
        calls_within(rows, file, top).contains(site),
    decreases rows.len() - top, 0int,
{
    let inner = calls_among(rows, file, top + 1, end_of(rows, top));
    own_functions_are_told(rows, top);
    if top == node {
        pushed_items(inner, site, site);
    } else {
        first_row_is_a_child(rows, top);
        calls_among_are_reached(rows, file, top, top + 1, node, site);
        match application_call(rows, file, top) {
            Some(call) => {
                pushed_items(inner, call, site);
            },
            None => {},
        }
    }
}

proof fn calls_among_are_reached(
    rows: Seq<RowModel>,
    file: Seq<char>,
    top: int,
    at: int,
    node: int,
    site: SiteModel,
)
    requires
        runs_with(rows, top, node),
        at_child(rows, top, at),
        at <= node,
        rows[node].kind == "application_expression"@,
        application_call(rows, file, node) == Some(site),
    ensures
        calls_among(rows, file, at, end_of(rows, top)).contains(site),
    decreases rows.len() - at, 1int,
{
    let end = end_of(rows, top);
    ends_tell_what_lies_in(rows, top, node);
    assert(is_child(rows, top, at));
    let next = end_of(rows, at);
    next_row_is_a_child(rows, top, at);
    ends_tell_what_lies_in(rows, at, node);
    let rest = calls_among(rows, file, next, end);
    if lies_in(rows, at, node) {
        assert(rows[at].named && !is_own_function(rows, at));
        calls_within_are_reached(rows, file, at, node, site);
        joint_items(calls_within(rows, file, at), rest, site);
    } else {
        calls_among_are_reached(rows, file, top, next, node, site);
        joint_items(calls_within(rows, file, at), rest, site);
    }
}

/// Whether a site is the call that an application of a body is.
pub open spec fn is_call_in(
    rows: Seq<RowModel>,
    file: Seq<char>,
    body: int,
    node: int,
    site: SiteModel,
) -> bool {
    runs_with(rows, body, node) && rows[node].kind == "application_expression"@
        && application_call(rows, file, node) == Some(site)
}

proof fn applications_are_no_functions()
    ensures
        "application_expression"@ != "fun_expression"@,
        "application_expression"@ != "function_expression"@,
        "application_expression"@ != "let_binding"@,
{
    reveal_strlit("application_expression");
    reveal_strlit("fun_expression");
    reveal_strlit("function_expression");
    reveal_strlit("let_binding");
    assert("application_expression"@.len() == 22);
    assert("fun_expression"@.len() == 14);
    assert("function_expression"@.len() == 19);
    assert("let_binding"@.len() == 11);
}

proof fn calls_within_are_applications(
    rows: Seq<RowModel>,
    file: Seq<char>,
    top: int,
    site: SiteModel,
) -> (node: int)
    requires
        0 <= top < rows.len(),
        calls_within(rows, file, top).contains(site),
    ensures
        is_call_in(rows, file, top, node, site),
        !is_own_function(rows, top),
    decreases rows.len() - top, 0int,
{
    let inner = calls_among(rows, file, top + 1, end_of(rows, top));
    own_functions_are_told(rows, top);
    first_row_is_a_child(rows, top);
    if rows[top].kind == "application_expression"@ {
        applications_are_no_functions();
        match application_call(rows, file, top) {
            Some(call) => {
                pushed_items(inner, call, site);
                if call == site {
                    top
                } else {
                    calls_among_are_applications(rows, file, top, top + 1, site)
                }
            },
            None => calls_among_are_applications(rows, file, top, top + 1, site),
        }
    } else {
        calls_among_are_applications(rows, file, top, top + 1, site)
    }
}

proof fn calls_among_are_applications(
    rows: Seq<RowModel>,
    file: Seq<char>,
    top: int,
    at: int,
    site: SiteModel,
) -> (node: int)
    requires
        at_child(rows, top, at),
        calls_among(rows, file, at, end_of(rows, top)).contains(site),
    ensures
        is_call_in(rows, file, top, node, site),
    decreases rows.len() - at, 1int,
{
    let end = end_of(rows, top);
    ends_tell_what_lies_in(rows, top, top);
    next_row_is_a_child(rows, top, at);
    let next = end_of(rows, at);
    let rest = calls_among(rows, file, next, end);
    joint_items(calls_within(rows, file, at), rest, site);
    if rows[at].named && calls_within(rows, file, at).contains(site) {
        let node = calls_within_are_applications(rows, file, at, site);
        lying_in_is_transitive(rows, top, at, node);
        assert forall|between: int|
            top < between && #[trigger] lies_in(rows, between, node) implies rows[between].named
            && !is_own_function(rows, between) by {
            if between < at {
                what_is_between_lies_in(rows, between, at, node);
                assert(lies_in(rows, between, at));
            }
        }
        node
    } else {
        calls_among_are_applications(rows, file, top, next, site)
    }
}

proof fn calls_of_bodies(rows: Seq<RowModel>, file: Seq<char>, body: int, node: int, site: SiteModel)
    requires
        is_call_in(rows, file, body, node, site),
        !has_parameters(rows, body),
    ensures
        calls_in_body(rows, file, body).contains(site),
{
    own_functions_are_told(rows, body);
    if is_function_node(rows, body) {
        applications_are_no_functions();
        assert(body < node);
        first_row_is_a_child(rows, body);
        calls_among_are_reached(rows, file, body, body + 1, node, site);
    } else {
        calls_within_are_reached(rows, file, body, node, site);
    }
}

/// Each application in the body of a function is one of its calls, if what is
/// applied is the path of a value and no constructor. It is shown as written,
/// and known by its path.
pub proof fn applied_paths_are_calls(
    rows: Seq<RowModel>,
    file: Seq<char>,
    body: int,
    node: int,
    function: int,
)
    requires
        runs_with(rows, body, node),
        !has_parameters(rows, body),
        rows[node].kind == "application_expression"@,
        is_field_of(rows, node, "function"@, function),
        rows[function].kind == "value_path"@ || rows[function].kind == "value_name"@
            || rows[function].kind == "parenthesized_operator"@,
        ({
            let parts = opened_above(rows, function) + dotted(plain_text(rows, function));
            &&& parts.len() > 0
            &&& parts.last().len() > 0 ==> parts.last()[0] != '`' && !('A' <= parts.last()[0]
                <= 'Z')
        }),
    ensures
        ({
            let parts = opened_above(rows, function) + dotted(plain_text(rows, function));
            let syntax = SyntaxModel::Path(parts);
            let span = span_of(file, rows[node]);
            calls_in_body(rows, file, body).contains(
                SiteModel {
                    id: source_site(syntax, span),
                    syntax,
                    target: TargetModel::Unresolved,
                    label: LabelModel {
                        default: path_label(rows, node, function, parts),
                        typed: None,
                    },
                    span,
                },
            )
        }),
{
    fields_are_found(rows, node, "function"@, function);
    reveal_strlit("value_path");
    reveal_strlit("value_name");
    reveal_strlit("parenthesized_operator");
    reveal_strlit("constructor_path");
    reveal_strlit("constructor_name");
    reveal_strlit("tag");
    assert("value_path"@.len() == 10 && "value_name"@.len() == 10);
    assert("parenthesized_operator"@.len() == 22 && "tag"@.len() == 3);
    assert("constructor_path"@.len() == 16 && "constructor_name"@.len() == 16);
    let site = application_call(rows, file, node);
    calls_of_bodies(rows, file, body, node, site->0);
}

/// Whether a site is an application of an expression that is no path. Where a
/// method of an object is called, any method can be meant.
pub open spec fn shows_expression(
    rows: Seq<RowModel>,
    file: Seq<char>,
    node: int,
    function: int,
    site: SiteModel,
) -> bool {
    &&& site.span == span_of(file, rows[node])
    &&& site.label.default == plain_text(rows, node)
    &&& if rows[function].kind == "method_invocation"@ {
        &&& site.syntax == SyntaxModel::Path(seq![plain_text(rows, function)])
        &&& site.target is Dynamic
        &&& site.target->candidates.len() == 0
        &&& site.target->unresolved_reasons.contains(UnresolvedReason::OpaqueInput)
    } else {
        &&& site.syntax == SyntaxModel::Expression(plain_text(rows, function))
        &&& site.target == TargetModel::Unresolved
    }
}

/// Each application of another expression is one of the calls too, unless it
/// applies a constructor: it is known by how it is written.
pub proof fn applied_expressions_are_calls(
    rows: Seq<RowModel>,
    file: Seq<char>,
    body: int,
    node: int,
    function: int,
)
    requires
        runs_with(rows, body, node),
        !has_parameters(rows, body),
        rows[node].kind == "application_expression"@,
        is_field_of(rows, node, "function"@, function),
        rows[function].kind != "value_path"@,
        rows[function].kind != "value_name"@,
        rows[function].kind != "parenthesized_operator"@,
        rows[function].kind != "constructor_path"@,
        rows[function].kind != "constructor_name"@,
        rows[function].kind != "tag"@,
    ensures
        exists|place: int|
            0 <= place < calls_in_body(rows, file, body).len() && shows_expression(
                rows,
                file,
                node,
                function,
                #[trigger] calls_in_body(rows, file, body)[place],
            ),
{
    fields_are_found(rows, node, "function"@, function);
    let site = application_call(rows, file, node);
    calls_of_bodies(rows, file, body, node, site->0);
    let calls = calls_in_body(rows, file, body);
    let place = choose|place: int| 0 <= place < calls.len() && calls[place] == site->0;
    assert(seq![UnresolvedReason::OpaqueInput].contains(UnresolvedReason::OpaqueInput)) by {
        assert(seq![UnresolvedReason::OpaqueInput][0] == UnresolvedReason::OpaqueInput);
    }
}

/// Whether a site stands where an application of a body stands, which applies
/// no constructor.
pub open spec fn stands_at(
    rows: Seq<RowModel>,
    file: Seq<char>,
    body: int,
    node: int,
    function: int,
    site: SiteModel,
) -> bool {
    &&& runs_with(rows, body, node)
    &&& rows[node].kind == "application_expression"@
    &&& is_field_of(rows, node, "function"@, function)
    &&& rows[function].kind != "constructor_path"@
    &&& rows[function].kind != "constructor_name"@
    &&& rows[function].kind != "tag"@
    &&& site.span == span_of(file, rows[node])
    &&& site.id == source_site(site.syntax, site.span)
}

/// A function makes no other calls than the applications in its body.
pub proof fn calls_are_applications(rows: Seq<RowModel>, file: Seq<char>, body: int, place: int)
    requires
        0 <= body < rows.len(),
        0 <= place < calls_in_body(rows, file, body).len(),
    ensures
        exists|node: int, function: int|
            #[trigger] stands_at(
                rows,
                file,
                body,
                node,
                function,
                calls_in_body(rows, file, body)[place],
            ),
{
    let calls = calls_in_body(rows, file, body);
    let site = calls[place];
    assert(calls.contains(site));
    first_row_is_a_child(rows, body);
    let node = if is_function_node(rows, body) {
        calls_among_are_applications(rows, file, body, body + 1, site)
    } else {
        calls_within_are_applications(rows, file, body, site)
    };
    let function = child_by_field(rows, node, "function"@)->0;
    found_fields_are_fields(rows, node, "function"@, function);
    assert(stands_at(rows, file, body, node, function, site));
}

} // verus!
