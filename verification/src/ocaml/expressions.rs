//! The calls in OCaml expressions, and the values that they can give.
use crate::lists::views;
use crate::model::{
    source_site, CallLabel, CallSite, CallSiteId, CallSyntax, CallTarget, DispatchEvidence,
    DispatchResolution, LabelModel, LanguageId, SiteModel, SourceSpan, SpanModel, SymbolId,
    SymbolModel,
    SyntaxModel, TargetModel, UnresolvedReason,
};
use crate::ocaml::patterns::{is_constructor, is_constructor_name};
use crate::ocaml::syntax::{
    child_by_field, child_by_field_name, child_of_kind, children_of_kind, direct_named_child,
    direct_named_children, end_of, ends_are_behind, fields_are_behind, find_end,
    find_named_children, find_parent, first_named, first_named_child, is_kind, named_are_behind,
    named_children, node_list, optional_node, parent_of, parents_are_before, span_of, sum_of,
    tree_sitter_span, RowModel, SyntaxRow,
};
use crate::ocaml::words::{normal, normalize_source};
use crate::paths::SourcePath;
use crate::sets::{add_text, with_text};
use crate::text::{
    chars_of, concat_texts, decimal, decimal_text, join_texts, joined, pieces, split_text,
    strip_prefix, strip_prefix_text, texts, trim_text, trimmed,
};
use vstd::prelude::*;

verus! {

/// The parts of a path among the first `count` texts.
pub open spec fn dotted_to(all: Seq<Seq<char>>, count: int) -> Seq<Seq<char>>
    decreases count,
{
    if count <= 0 {
        Seq::empty()
    } else {
        let before = dotted_to(all, count - 1);
        let part = trimmed(all[count - 1]);
        if part.len() > 0 {
            before.push(part)
        } else {
            before
        }
    }
}

/// The parts of a path between its dots.
pub open spec fn dotted(text: Seq<char>) -> Seq<Seq<char>> {
    let all = pieces(text, "."@);
    dotted_to(all, all.len() as int)
}

/// The parts of a path between its dots.
pub fn split_dotted(text: &str) -> (result: Vec<String>)
    ensures
        texts(result@) == dotted(text@),
{
    proof {
        reveal_strlit(".");
    }
    let all = split_text(text, ".");
    let mut result: Vec<String> = Vec::new();
    let mut index: usize = 0;
    proof {
        assert(texts(result@) =~= Seq::empty());
        assert(texts(all@).len() == all@.len());
    }
    while index < all.len()
        invariant
            index <= all@.len(),
            texts(result@) == dotted_to(texts(all@), index as int),
        decreases all@.len() - index,
    {
        let ghost before = texts(result@);
        proof {
            assert(texts(all@)[index as int] == all@[index as int]@);
        }
        let part = trim_text(all[index].as_str());
        if chars_of(part.as_str()).len() > 0 {
            let ghost model = part@;
            result.push(part);
            proof {
                assert(texts(result@) =~= before.push(model));
            }
        }
        index += 1;
    }
    result
}

/// The text of a node with one space for each stretch of white space.
pub open spec fn plain_text(rows: Seq<RowModel>, node: int) -> Seq<char> {
    normal(rows[node].text)
}

/// The text of a node with one space for each stretch of white space.
pub fn plain_node_text(rows: &Vec<SyntaxRow>, node: usize) -> (result: String)
    requires
        node < rows@.len(),
    ensures
        result@ == plain_text(views(rows@), node as int),
{
    proof {
        assert(views(rows@)[node as int] == rows@[node as int]@);
    }
    normalize_source(rows[node].text.as_str())
}

/// The module that a node opens for what is in it.
pub open spec fn opened_by(rows: Seq<RowModel>, node: int) -> Seq<Seq<char>> {
    if rows[node].kind == "local_open_expression"@ {
        match child_of_kind(rows, node, "module_path"@) {
            Some(path) => dotted(plain_text(rows, path)),
            None => Seq::empty(),
        }
    } else {
        Seq::empty()
    }
}

/// The modules that are open where a node stands.
pub open spec fn opened_above(rows: Seq<RowModel>, node: int) -> Seq<Seq<char>>
    decreases node,
{
    proof {
        parents_are_before(rows, rows[node].depth, node);
    }
    match parent_of(rows, node) {
        Some(parent) => opened_above(rows, parent) + opened_by(rows, parent),
        None => Seq::empty(),
    }
}

/// Whether a node is the name of a value.
pub open spec fn is_value_node(rows: Seq<RowModel>, node: int) -> bool {
    rows[node].kind == "value_path"@ || rows[node].kind == "value_name"@ || rows[node].kind
        == "parenthesized_operator"@
}

/// The path of a value, with the modules that are open where it stands.
pub open spec fn value_path(rows: Seq<RowModel>, node: int) -> Option<Seq<Seq<char>>> {
    let parts = opened_above(rows, node) + dotted(plain_text(rows, node));
    if is_value_node(rows, node) && parts.len() > 0 {
        Some(parts)
    } else {
        None
    }
}

/// Whether a node is the name of a value.
pub fn names_value(rows: &Vec<SyntaxRow>, node: usize) -> (result: bool)
    requires
        node < rows@.len(),
    ensures
        result == is_value_node(views(rows@), node as int),
{
    is_kind(rows, node, "value_path") || is_kind(rows, node, "value_name") || is_kind(
        rows,
        node,
        "parenthesized_operator",
    )
}

fn find_opened(rows: &Vec<SyntaxRow>, node: usize) -> (result: Vec<String>)
    requires
        node < rows@.len(),
    ensures
        texts(result@) == opened_by(views(rows@), node as int),
{
    if is_kind(rows, node, "local_open_expression") {
        match direct_named_child(rows, node, "module_path") {
            Some(path) => {
                return split_dotted(plain_node_text(rows, path).as_str());
            },
            None => {},
        }
    }
    let result: Vec<String> = Vec::new();
    proof {
        assert(texts(result@) =~= Seq::empty());
    }
    result
}

fn find_all_opened(rows: &Vec<SyntaxRow>, node: usize) -> (result: Vec<String>)
    requires
        node < rows@.len(),
    ensures
        texts(result@) == opened_above(views(rows@), node as int),
    decreases node,
{
    match find_parent(rows, node) {
        Some(parent) => {
            let mut result = find_all_opened(rows, parent);
            let mut more = find_opened(rows, parent);
            let ghost before = texts(result@);
            let ghost added = texts(more@);
            result.append(&mut more);
            proof {
                assert(texts(result@) =~= before + added);
            }
            result
        },
        None => {
            let result: Vec<String> = Vec::new();
            proof {
                assert(texts(result@) =~= Seq::empty());
            }
            result
        },
    }
}

/// The path of a value, with the modules that are open where it stands.
pub fn ocaml_value_path(rows: &Vec<SyntaxRow>, node: usize) -> (result: Option<Vec<String>>)
    requires
        node < rows@.len(),
    ensures
        match result {
            Some(parts) => value_path(views(rows@), node as int) == Some(texts(parts@)),
            None => value_path(views(rows@), node as int) is None,
        },
{
    if !names_value(rows, node) {
        return None;
    }
    let mut result = find_all_opened(rows, node);
    let mut parts = split_dotted(plain_node_text(rows, node).as_str());
    let ghost before = texts(result@);
    let ghost added = texts(parts@);
    result.append(&mut parts);
    proof {
        assert(texts(result@) =~= before + added);
        assert(texts(result@).len() == result@.len());
    }
    if result.len() > 0 {
        Some(result)
    } else {
        None
    }
}

/// How a call of a path is shown: with the modules that are open.
pub open spec fn path_label(
    rows: Seq<RowModel>,
    application: int,
    function: int,
    parts: Seq<Seq<char>>,
) -> Seq<char> {
    let whole = plain_text(rows, application);
    match strip_prefix(whole, plain_text(rows, function)) {
        Some(values) => joined(parts, "."@) + values,
        None => whole,
    }
}

/// How a call of a path is shown.
pub fn ocaml_path_call_label(
    rows: &Vec<SyntaxRow>,
    application: usize,
    function: usize,
    parts: &Vec<String>,
) -> (result: String)
    requires
        application < rows@.len(),
        function < rows@.len(),
    ensures
        result@ == path_label(
            views(rows@),
            application as int,
            function as int,
            texts(parts@),
        ),
{
    let whole = plain_node_text(rows, application);
    let callee = plain_node_text(rows, function);
    match strip_prefix_text(whole.as_str(), callee.as_str()) {
        Some(values) => concat_texts(join_texts(parts, ".").as_str(), values.as_str()),
        None => whole,
    }
}

/// A call in the source.
pub open spec fn source_call(
    syntax: SyntaxModel,
    target: TargetModel,
    label: Seq<char>,
    span: SpanModel,
) -> SiteModel {
    SiteModel {
        id: source_site(syntax, span),
        syntax,
        target,
        label: LabelModel { default: label, typed: None },
        span,
    }
}

fn make_call(syntax: CallSyntax, target: CallTarget, label: &str, span: SourceSpan) -> (result:
    CallSite)
    ensures
        result@ == source_call(syntax@, target@, label@, span@),
{
    CallSite {
        id: CallSiteId::source(&syntax, &span),
        syntax,
        target,
        label: CallLabel::new(label),
        span,
    }
}

/// Where a call of a method can lead: anywhere.
pub open spec fn method_target(row: RowModel) -> TargetModel {
    TargetModel::Dynamic {
        dispatch: SymbolModel {
            language: "ocaml"@,
            module: Seq::empty(),
            container: None,
            name: "object-method@"@ + decimal(sum_of(row.row as int, 1) as nat) + ":"@
                + decimal(row.column as nat),
        },
        candidates: Seq::empty(),
        resolution: DispatchResolution::Unresolved,
        evidence: DispatchEvidence::ExactFlow,
        unresolved_reasons: seq![UnresolvedReason::OpaqueInput],
    }
}

fn make_method_target(row: &SyntaxRow) -> (result: CallTarget)
    ensures
        result@ == method_target(row@),
{
    let mut name = concat_texts(
        "object-method@",
        decimal_text(row.row.saturating_add(1)).as_str(),
    );
    name.append(":");
    name.append(decimal_text(row.column).as_str());
    let mut unresolved_reasons: Vec<UnresolvedReason> = Vec::new();
    unresolved_reasons.push(UnresolvedReason::OpaqueInput);
    let result = CallTarget::Dynamic {
        dispatch: SymbolId {
            language: LanguageId::new("ocaml"),
            module: Vec::new(),
            container: None,
            name,
        },
        candidates: Vec::new(),
        resolution: DispatchResolution::Unresolved,
        evidence: DispatchEvidence::ExactFlow,
        unresolved_reasons,
    };
    proof {
        assert(result@->dispatch.module =~= Seq::empty());
        assert(result@->candidates =~= Seq::empty());
        assert(result@->unresolved_reasons =~= seq![UnresolvedReason::OpaqueInput]);
    }
    result
}

/// Whether a node builds a value.
pub open spec fn is_constructor_node(rows: Seq<RowModel>, node: int) -> bool {
    rows[node].kind == "constructor_path"@ || rows[node].kind == "constructor_name"@
        || rows[node].kind == "tag"@
}

/// The call that an application is, if it is one.
pub open spec fn application_call(rows: Seq<RowModel>, file: Seq<char>, node: int) -> Option<
    SiteModel,
> {
    match child_by_field(rows, node, "function"@) {
        None => None,
        Some(function) => {
            let span = span_of(file, rows[node]);
            if is_constructor_node(rows, function) {
                None
            } else {
                match value_path(rows, function) {
                    Some(parts) => if is_constructor(parts.last()) {
                        None
                    } else {
                        Some(
                            source_call(
                                SyntaxModel::Path(parts),
                                TargetModel::Unresolved,
                                path_label(rows, node, function, parts),
                                span,
                            ),
                        )
                    },
                    None => if rows[function].kind == "method_invocation"@ {
                        Some(
                            source_call(
                                SyntaxModel::Path(seq![plain_text(rows, function)]),
                                method_target(rows[node]),
                                plain_text(rows, node),
                                span,
                            ),
                        )
                    } else {
                        Some(
                            source_call(
                                SyntaxModel::Expression(plain_text(rows, function)),
                                TargetModel::Unresolved,
                                plain_text(rows, node),
                                span,
                            ),
                        )
                    },
                }
            }
        },
    }
}

fn call_of_application(rows: &Vec<SyntaxRow>, file: &SourcePath, node: usize) -> (result: Option<
    CallSite,
>)
    requires
        node < rows@.len(),
    ensures
        match result {
            Some(call) => application_call(views(rows@), file@, node as int) == Some(call@),
            None => application_call(views(rows@), file@, node as int) is None,
        },
{
    let function = match child_by_field_name(rows, node, "function") {
        Some(function) => function,
        None => {
            return None;
        },
    };
    proof {
        assert(views(rows@)[node as int] == rows@[node as int]@);
    }
    if is_kind(rows, function, "constructor_path") || is_kind(rows, function, "constructor_name")
        || is_kind(rows, function, "tag") {
        return None;
    }
    let span = tree_sitter_span(file, &rows[node]);
    match ocaml_value_path(rows, function) {
        Some(parts) => {
            proof {
                assert(texts(parts@).len() == parts@.len());
                assert(texts(parts@).last() == parts@.last()@);
            }
            if is_constructor_name(parts[parts.len() - 1].as_str()) {
                return None;
            }
            let label = ocaml_path_call_label(rows, node, function, &parts);
            Some(make_call(CallSyntax::Path(parts), CallTarget::Unresolved, label.as_str(), span))
        },
        None => if is_kind(rows, function, "method_invocation") {
            let mut parts: Vec<String> = Vec::new();
            let text = plain_node_text(rows, function);
            let ghost model = text@;
            parts.push(text);
            proof {
                assert(texts(parts@) =~= seq![model]);
            }
            Some(
                make_call(
                    CallSyntax::Path(parts),
                    make_method_target(&rows[node]),
                    plain_node_text(rows, node).as_str(),
                    span,
                ),
            )
        } else {
            Some(
                make_call(
                    CallSyntax::Expression(plain_node_text(rows, function)),
                    CallTarget::Unresolved,
                    plain_node_text(rows, node).as_str(),
                    span,
                ),
            )
        },
    }
}

/// Whether a node is an anonymous function.
pub open spec fn is_function_node(rows: Seq<RowModel>, node: int) -> bool {
    rows[node].kind == "fun_expression"@ || rows[node].kind == "function_expression"@
}

/// Whether a node is an anonymous function.
pub fn is_function_expression(rows: &Vec<SyntaxRow>, node: usize) -> (result: bool)
    requires
        node < rows@.len(),
    ensures
        result == is_function_node(views(rows@), node as int),
{
    is_kind(rows, node, "fun_expression") || is_kind(rows, node, "function_expression")
}

/// Whether a node is a binding with parameters.
pub open spec fn binds_function(rows: Seq<RowModel>, node: int) -> bool {
    rows[node].kind == "let_binding"@ && children_of_kind(rows, node, "parameter"@).len() > 0
}

/// Whether a node is a binding with parameters.
pub fn is_function_binding(rows: &Vec<SyntaxRow>, node: usize) -> (result: bool)
    requires
        node < rows@.len(),
    ensures
        result == binds_function(views(rows@), node as int),
{
    if !is_kind(rows, node, "let_binding") {
        return false;
    }
    let parameters = direct_named_children(rows, node, "parameter");
    proof {
        assert(node_list(parameters@).len() == parameters@.len());
    }
    parameters.len() > 0
}

/// The calls in the children from `at` up to `end`.
pub open spec fn calls_among(rows: Seq<RowModel>, file: Seq<char>, at: int, end: int) -> Seq<
    SiteModel,
>
    decreases rows.len() - at, 1int,
{
    if at < 0 || at >= end || at >= rows.len() {
        Seq::empty()
    } else {
        proof {
            ends_are_behind(rows, at);
        }
        let rest = calls_among(rows, file, end_of(rows, at), end);
        if rows[at].named {
            calls_within(rows, file, at) + rest
        } else {
            rest
        }
    }
}

/// The calls in a part of a function: inner calls come before the calls that
/// they are handed to. Calls in local functions are theirs.
pub open spec fn calls_within(rows: Seq<RowModel>, file: Seq<char>, node: int) -> Seq<SiteModel>
    decreases rows.len() - node, 0int,
    when 0 <= node < rows.len()
{
    let inner = calls_among(rows, file, node + 1, end_of(rows, node));
    if rows[node].kind == "application_expression"@ {
        match application_call(rows, file, node) {
            Some(call) => inner.push(call),
            None => inner,
        }
    } else if is_function_node(rows, node) || binds_function(rows, node) {
        Seq::empty()
    } else {
        inner
    }
}

/// The calls in the body of a function.
pub open spec fn calls_in_body(rows: Seq<RowModel>, file: Seq<char>, node: int) -> Seq<SiteModel> {
    if is_function_node(rows, node) {
        calls_among(rows, file, node + 1, end_of(rows, node))
    } else {
        calls_within(rows, file, node)
    }
}

fn append_calls(calls: &mut Vec<CallSite>, mut more: Vec<CallSite>)
    ensures
        views(final(calls)@) == views(old(calls)@) + views(more@),
{
    let ghost before = views(calls@);
    let ghost added = views(more@);
    calls.append(&mut more);
    proof {
        assert(views(calls@) =~= before + added);
    }
}

fn collect_calls_below(rows: &Vec<SyntaxRow>, file: &SourcePath, node: usize) -> (result: Vec<
    CallSite,
>)
    requires
        node < rows@.len(),
    ensures
        views(result@) == calls_among(
            views(rows@),
            file@,
            node + 1,
            end_of(views(rows@), node as int),
        ),
    decreases rows@.len() - node, 0int,
{
    let ghost model = views(rows@);
    let end: usize = find_end(rows, node);
    let mut result: Vec<CallSite> = Vec::new();
    let mut at: usize = node + 1;
    let ghost whole = calls_among(model, file@, node + 1, end as int);
    proof {
        assert(views(result@) + whole =~= whole);
    }
    while at < end
        invariant
            node < at <= rows@.len(),
            end <= rows@.len(),
            model == views(rows@),
            views(result@) + calls_among(model, file@, at as int, end as int) == whole,
        decreases rows@.len() - at,
    {
        let ghost before = views(result@);
        let next: usize = find_end(rows, at);
        proof {
            assert(model[at as int] == rows@[at as int]@);
        }
        if rows[at].named {
            let more = collect_calls_within(rows, file, at);
            let ghost added = views(more@);
            append_calls(&mut result, more);
            proof {
                let rest = calls_among(model, file@, next as int, end as int);
                assert(before + (added + rest) =~= (before + added) + rest);
            }
        }
        at = next;
    }
    proof {
        assert(views(result@) + Seq::<SiteModel>::empty() =~= views(result@));
    }
    result
}

fn collect_calls_within(rows: &Vec<SyntaxRow>, file: &SourcePath, node: usize) -> (result: Vec<
    CallSite,
>)
    requires
        node < rows@.len(),
    ensures
        views(result@) == calls_within(views(rows@), file@, node as int),
    decreases rows@.len() - node, 1int,
{
    if is_kind(rows, node, "application_expression") {
        let mut result = collect_calls_below(rows, file, node);
        let ghost before = views(result@);
        match call_of_application(rows, file, node) {
            Some(call) => {
                let ghost model = call@;
                result.push(call);
                proof {
                    assert(views(result@) =~= before.push(model));
                }
            },
            None => {},
        }
        return result;
    }
    if is_function_expression(rows, node) || is_function_binding(rows, node) {
        let result: Vec<CallSite> = Vec::new();
        proof {
            assert(views(result@) =~= Seq::empty());
        }
        return result;
    }
    collect_calls_below(rows, file, node)
}

/// The calls in the body of a function.
pub fn collect_calls(rows: &Vec<SyntaxRow>, file: &SourcePath, node: usize) -> (result: Vec<
    CallSite,
>)
    requires
        node < rows@.len(),
    ensures
        views(result@) == calls_in_body(views(rows@), file@, node as int),
{
    if is_function_expression(rows, node) {
        collect_calls_below(rows, file, node)
    } else {
        collect_calls_within(rows, file, node)
    }
}

/// Whether a node has the value of another node in it.
pub open spec fn is_wrapper(rows: Seq<RowModel>, node: int) -> bool {
    let kind = rows[node].kind;
    kind == "expression_item"@ || kind == "parenthesized_expression"@ || kind
        == "typed_expression"@ || kind == "coercion_expression"@ || kind == "let_expression"@
        || kind == "local_open_expression"@
}

/// Whether a node has the value of another node in it.
pub fn wraps_value(rows: &Vec<SyntaxRow>, node: usize) -> (result: bool)
    requires
        node < rows@.len(),
    ensures
        result == is_wrapper(views(rows@), node as int),
{
    is_kind(rows, node, "expression_item") || is_kind(rows, node, "parenthesized_expression")
        || is_kind(rows, node, "typed_expression") || is_kind(rows, node, "coercion_expression")
        || is_kind(rows, node, "let_expression") || is_kind(rows, node, "local_open_expression")
}

/// The node whose value a node has.
pub open spec fn wrapped_node(rows: Seq<RowModel>, node: int) -> Option<int> {
    match child_by_field(rows, node, "body"@) {
        Some(body) => Some(body),
        None => match child_by_field(rows, node, "expression"@) {
            Some(expression) => Some(expression),
            None => first_named(rows, node),
        },
    }
}

/// The node whose value a node has.
pub fn find_wrapped(rows: &Vec<SyntaxRow>, node: usize) -> (result: Option<usize>)
    requires
        node < rows@.len(),
    ensures
        optional_node(result) == wrapped_node(views(rows@), node as int),
        match result {
            Some(child) => node < child < rows@.len(),
            None => true,
        },
{
    match child_by_field_name(rows, node, "body") {
        Some(body) => Some(body),
        None => match child_by_field_name(rows, node, "expression") {
            Some(expression) => Some(expression),
            None => first_named_child(rows, node),
        },
    }
}

/// The last named child of a node.
pub open spec fn last_named(rows: Seq<RowModel>, node: int) -> Option<int> {
    let nodes = named_children(rows, node);
    if nodes.len() > 0 {
        Some(nodes.last())
    } else {
        None
    }
}

/// The last named child of a node.
pub fn last_named_child(rows: &Vec<SyntaxRow>, node: usize) -> (result: Option<usize>)
    requires
        node < rows@.len(),
    ensures
        optional_node(result) == last_named(views(rows@), node as int),
        match result {
            Some(child) => node < child < rows@.len(),
            None => true,
        },
{
    let nodes = find_named_children(rows, node);
    proof {
        assert(node_list(nodes@).len() == nodes@.len());
    }
    if nodes.len() > 0 {
        let last: usize = nodes[nodes.len() - 1];
        proof {
            assert(node_list(nodes@).last() == last);
        }
        Some(last)
    } else {
        None
    }
}

/// The branches of a condition or of a match among the first `count` nodes.
pub open spec fn branches_to(rows: Seq<RowModel>, nodes: Seq<int>, condition: bool, count: int) -> Seq<
    int,
>
    decreases count,
{
    if count <= 0 {
        Seq::empty()
    } else {
        let before = branches_to(rows, nodes, condition, count - 1);
        let kind = rows[nodes[count - 1]].kind;
        let is_branch = if condition {
            kind == "then_clause"@ || kind == "else_clause"@
        } else {
            kind == "match_case"@
        };
        if is_branch {
            before.push(nodes[count - 1])
        } else {
            before
        }
    }
}

/// The branches of a condition or of a match.
pub open spec fn branches_of(rows: Seq<RowModel>, node: int, condition: bool) -> Seq<int> {
    let nodes = named_children(rows, node);
    branches_to(rows, nodes, condition, nodes.len() as int)
}

/// The branches of a condition or of a match.
pub fn find_branches(rows: &Vec<SyntaxRow>, node: usize, condition: bool) -> (result: Vec<usize>)
    requires
        node < rows@.len(),
    ensures
        node_list(result@) == branches_of(views(rows@), node as int, condition),
        forall|place: int|
            0 <= place < result@.len() ==> node < #[trigger] result@[place] < rows@.len(),
{
    let nodes = find_named_children(rows, node);
    let ghost model = views(rows@);
    let ghost all = node_list(nodes@);
    let mut result: Vec<usize> = Vec::new();
    let mut index: usize = 0;
    proof {
        assert(node_list(result@) =~= Seq::empty());
        assert(all.len() == nodes@.len());
    }
    while index < nodes.len()
        invariant
            index <= nodes@.len(),
            model == views(rows@),
            all == node_list(nodes@),
            forall|place: int|
                0 <= place < nodes@.len() ==> node < #[trigger] nodes@[place] < rows@.len(),
            node_list(result@) == branches_to(model, all, condition, index as int),
            forall|place: int|
                0 <= place < result@.len() ==> node < #[trigger] result@[place] < rows@.len(),
        decreases nodes@.len() - index,
    {
        let ghost before = node_list(result@);
        let child: usize = nodes[index];
        proof {
            assert(all[index as int] == child);
        }
        let is_branch = if condition {
            is_kind(rows, child, "then_clause") || is_kind(rows, child, "else_clause")
        } else {
            is_kind(rows, child, "match_case")
        };
        if is_branch {
            result.push(child);
            proof {
                assert(node_list(result@) =~= before.push(child as int));
            }
        }
        index += 1;
    }
    result
}

/// The field of a branch that has its value.
pub open spec fn branch_field(condition: bool) -> Seq<char> {
    if condition {
        "expression"@
    } else {
        "body"@
    }
}

/// The names of the values that the first `count` branches can give.
pub open spec fn branch_outcomes(
    rows: Seq<RowModel>,
    node: int,
    branches: Seq<int>,
    condition: bool,
    names: Seq<Seq<char>>,
    count: int,
) -> Seq<Seq<char>>
    decreases rows.len() - node, 0int, count,
{
    if count <= 0 || !(0 <= node < rows.len()) {
        names
    } else {
        let before = branch_outcomes(rows, node, branches, condition, names, count - 1);
        let branch = branches[count - 1];
        match child_by_field(rows, branch, branch_field(condition)) {
            Some(value) => if node < branch < rows.len() {
                proof {
                    fields_are_behind(
                        rows,
                        branch + 1,
                        end_of(rows, branch),
                        branch_field(condition),
                    );
                }
                outcomes(rows, value, before)
            } else {
                before
            },
            None => before,
        }
    }
}

/// The names of the values that an expression can give, in order.
pub open spec fn outcomes(rows: Seq<RowModel>, node: int, names: Seq<Seq<char>>) -> Seq<Seq<char>>
    decreases rows.len() - node, 1int, 0int,
    when 0 <= node < rows.len()
{
    proof {
        fields_are_behind(rows, node + 1, end_of(rows, node), "body"@);
        fields_are_behind(rows, node + 1, end_of(rows, node), "expression"@);
        named_are_behind(rows, node + 1, end_of(rows, node));
    }
    if is_value_node(rows, node) {
        with_text(names, plain_text(rows, node))
    } else if is_wrapper(rows, node) {
        match wrapped_node(rows, node) {
            Some(inner) => outcomes(rows, inner, names),
            None => names,
        }
    } else if rows[node].kind == "sequence_expression"@ {
        match last_named(rows, node) {
            Some(last) => outcomes(rows, last, names),
            None => names,
        }
    } else if rows[node].kind == "if_expression"@ {
        let branches = branches_of(rows, node, true);
        branch_outcomes(rows, node, branches, true, names, branches.len() as int)
    } else if rows[node].kind == "match_expression"@ || rows[node].kind
        == "function_expression"@ {
        let branches = branches_of(rows, node, false);
        branch_outcomes(rows, node, branches, false, names, branches.len() as int)
    } else {
        names
    }
}

fn collect_branch_outcomes(
    rows: &Vec<SyntaxRow>,
    node: usize,
    condition: bool,
    names: &mut Vec<String>,
)
    requires
        node < rows@.len(),
    ensures
        texts(final(names)@) == ({
            let branches = branches_of(views(rows@), node as int, condition);
            branch_outcomes(
                views(rows@),
                node as int,
                branches,
                condition,
                texts(old(names)@),
                branches.len() as int,
            )
        }),
    decreases rows@.len() - node, 0int,
{
    let branches = find_branches(rows, node, condition);
    let ghost model = views(rows@);
    let ghost all = node_list(branches@);
    let ghost start = texts(names@);
    let mut index: usize = 0;
    proof {
        assert(all.len() == branches@.len());
    }
    while index < branches.len()
        invariant
            index <= branches@.len(),
            node < rows@.len(),
            model == views(rows@),
            model.len() == rows@.len(),
            all == node_list(branches@),
            forall|place: int|
                0 <= place < branches@.len() ==> node < #[trigger] branches@[place]
                    < rows@.len(),
            texts(names@) == branch_outcomes(
                model,
                node as int,
                all,
                condition,
                start,
                index as int,
            ),
        decreases branches@.len() - index,
    {
        let branch: usize = branches[index];
        proof {
            assert(all[index as int] == branch);
        }
        let field = if condition {
            "expression"
        } else {
            "body"
        };
        match child_by_field_name(rows, branch, field) {
            Some(value) => {
                collect_ocaml_callable_outcomes(rows, value, names);
            },
            None => {},
        }
        index += 1;
    }
}

/// Adds the names of the values that an expression can give.
pub fn collect_ocaml_callable_outcomes(rows: &Vec<SyntaxRow>, node: usize, names: &mut Vec<String>)
    requires
        node < rows@.len(),
    ensures
        texts(final(names)@) == outcomes(views(rows@), node as int, texts(old(names)@)),
    decreases rows@.len() - node, 1int,
{
    proof {
        assert(views(rows@).len() == rows@.len());
    }
    if names_value(rows, node) {
        add_text(names, plain_node_text(rows, node));
    } else if wraps_value(rows, node) {
        match find_wrapped(rows, node) {
            Some(inner) => {
                collect_ocaml_callable_outcomes(rows, inner, names);
            },
            None => {},
        }
    } else if is_kind(rows, node, "sequence_expression") {
        match last_named_child(rows, node) {
            Some(last) => {
                collect_ocaml_callable_outcomes(rows, last, names);
            },
            None => {},
        }
    } else if is_kind(rows, node, "if_expression") {
        collect_branch_outcomes(rows, node, true, names);
    } else if is_kind(rows, node, "match_expression") || is_kind(
        rows,
        node,
        "function_expression",
    ) {
        collect_branch_outcomes(rows, node, false, names);
    }
}

} // verus!
