//! The modules of OCaml sources, and the functions in them.
use crate::lists::views;
use crate::model::{FactModel, FunctionModel, LanguageFact, SymbolId, SymbolModel};
use crate::ocaml::declarations::{
    collect_nested_callables_from_binding, declared_function, function_from_binding,
    nested_in_binding,
};
use crate::ocaml::expressions::{plain_node_text, plain_text};
use crate::ocaml::extract::{
    both, make_fact, make_symbol, no_facts, no_findings, ocaml_fact, ocaml_symbol, only_facts,
    only_function, push_fact, Findings, FindingsModel,
};
use crate::ocaml::labels::{ocaml_source_name, source_name};
use crate::ocaml::syntax::{
    child_by_field, child_by_field_name, child_of_kind, children_of_kind, descendant_from,
    direct_named_child, direct_named_children, end_of, ends_are_behind, fields_are_behind,
    find_end, first_descendant, first_descendant_of_kind, is_kind, line_ends, node_list, span_of,
    sum_of, tree_sitter_span, RowModel, SyntaxRow,
};
use crate::paths::SourcePath;
use crate::text::{
    copy_texts, decimal, decimal_text, join_texts, joined, optional, starts_with, starts_with_text,
    texts,
};
use vstd::prelude::*;

verus! {

/// What is found in a node lies behind it.
pub proof fn descendants_are_behind(rows: Seq<RowModel>, at: int, end: int, kind: Seq<char>)
    requires
        0 <= at,
    ensures
        match descendant_from(rows, at, end, kind) {
            Some(found) => at <= found < rows.len(),
            None => true,
        },
    decreases rows.len() - at,
{
    if at < end && at < rows.len() {
        let next = end_of(rows, at);
        ends_are_behind(rows, at);
        descendants_are_behind(rows, next, end, kind);
        if rows[at].named && rows[at].kind != kind {
            descendants_are_behind(rows, at + 1, next, kind);
        }
    }
}

/// The functor that is applied, and what it is applied to.
pub open spec fn module_application(rows: Seq<RowModel>, node: int) -> Option<
    (Seq<char>, Seq<Seq<char>>),
>
    decreases rows.len() - node,
    when 0 <= node < rows.len()
{
    if rows[node].kind == "module_path"@ {
        Some((plain_text(rows, node), Seq::empty()))
    } else if rows[node].kind != "module_application"@ {
        None
    } else {
        proof {
            fields_are_behind(rows, node + 1, end_of(rows, node), "functor"@);
        }
        match child_by_field(rows, node, "functor"@) {
            None => None,
            Some(functor) => match module_application(rows, functor) {
                None => None,
                Some((name, values)) => match child_by_field(rows, node, "argument"@) {
                    None => None,
                    Some(argument) => {
                        let path = if rows[argument].kind == "module_path"@ {
                            Some(argument)
                        } else {
                            first_descendant(rows, argument, "module_path"@)
                        };
                        match path {
                            None => None,
                            Some(path) => Some((name, values.push(plain_text(rows, path)))),
                        }
                    },
                },
            },
        }
    }
}

/// The functor that is applied, and what it is applied to.
pub fn ocaml_module_application(rows: &Vec<SyntaxRow>, node: usize) -> (result: Option<
    (String, Vec<String>),
>)
    requires
        node < rows@.len(),
    ensures
        match result {
            Some((name, values)) => module_application(views(rows@), node as int) == Some(
                (name@, texts(values@)),
            ),
            None => module_application(views(rows@), node as int) is None,
        },
    decreases rows@.len() - node,
{
    proof {
        assert(views(rows@).len() == rows@.len());
    }
    if is_kind(rows, node, "module_path") {
        let values: Vec<String> = Vec::new();
        proof {
            assert(texts(values@) =~= Seq::empty());
        }
        return Some((plain_node_text(rows, node), values));
    }
    if !is_kind(rows, node, "module_application") {
        return None;
    }
    let functor = match child_by_field_name(rows, node, "functor") {
        Some(functor) => functor,
        None => {
            return None;
        },
    };
    let (name, mut values) = match ocaml_module_application(rows, functor) {
        Some(found) => found,
        None => {
            return None;
        },
    };
    let argument = match child_by_field_name(rows, node, "argument") {
        Some(argument) => argument,
        None => {
            return None;
        },
    };
    let path = if is_kind(rows, argument, "module_path") {
        Some(argument)
    } else {
        first_descendant_of_kind(rows, argument, "module_path")
    };
    match path {
        None => None,
        Some(path) => {
            let ghost before = texts(values@);
            let value = plain_node_text(rows, path);
            let ghost model = value@;
            values.push(value);
            proof {
                assert(texts(values@) =~= before.push(model));
            }
            Some((name, values))
        },
    }
}

/// The text that tells a group of functions apart that can call each other.
pub open spec fn group_text(file: Seq<char>, row: RowModel) -> Seq<char> {
    decimal(row.row as nat) + ":"@ + decimal(row.column as nat) + "-"@ + decimal(
        sum_of(row.row as int, line_ends(row.text, row.text.len() as int) as int) as nat,
    ) + ":"@ + decimal(span_of(file, row).end_column as nat)
}

fn make_group_text(file: &SourcePath, row: &SyntaxRow) -> (result: String)
    ensures
        result@ == group_text(file@, row@),
{
    let span = tree_sitter_span(file, row);
    let end_row: usize = find_end_row(row);
    let mut result = decimal_text(row.row);
    result.append(":");
    result.append(decimal_text(row.column).as_str());
    result.append("-");
    result.append(decimal_text(end_row).as_str());
    result.append(":");
    result.append(decimal_text(span.end_column).as_str());
    result
}

fn find_end_row(row: &SyntaxRow) -> (result: usize)
    ensures
        result == sum_of(
            row@.row as int,
            line_ends(row@.text, row@.text.len() as int) as int,
        ),
{
    let characters = crate::text::chars_of(row.text.as_str());
    let mut lines: usize = 0;
    let mut index: usize = 0;
    while index < characters.len()
        invariant
            index <= characters@.len(),
            characters@ == row@.text,
            lines <= index,
            lines == line_ends(row@.text, index as int),
        decreases characters@.len() - index,
    {
        if characters[index] == '\n' {
            lines += 1;
        }
        index += 1;
    }
    row.row.saturating_add(lines)
}

/// The group that the functions of a definition belong to, if they can call
/// each other.
pub open spec fn recursive_group(rows: Seq<RowModel>, file: Seq<char>, node: int) -> Option<
    Seq<char>,
> {
    if starts_with(plain_text(rows, node), "let rec "@) {
        Some(group_text(file, rows[node]))
    } else {
        None
    }
}

/// The fact that a function belongs to a group.
pub open spec fn group_facts(function: FunctionModel, group: Option<Seq<char>>) -> Seq<FactModel> {
    match group {
        Some(group) => seq![
            ocaml_fact(
                function.id,
                "recursive-group"@,
                source_name(function.id.name),
                group,
                function.span,
            ),
        ],
        None => Seq::empty(),
    }
}

/// What the first `count` bindings of a definition declare.
pub open spec fn value_findings(
    rows: Seq<RowModel>,
    file: Seq<char>,
    module: Seq<Seq<char>>,
    group: Option<Seq<char>>,
    bindings: Seq<int>,
    count: int,
) -> FindingsModel
    decreases count,
{
    if count <= 0 {
        no_findings()
    } else {
        let before = value_findings(rows, file, module, group, bindings, count - 1);
        let binding = bindings[count - 1];
        match declared_function(rows, file, module, binding) {
            Some((function, facts)) => both(
                both(
                    before,
                    both(
                        only_facts(facts + group_facts(function, group)),
                        only_function(function),
                    ),
                ),
                nested_in_binding(rows, file, module, function.id, binding),
            ),
            None => before,
        }
    }
}

/// What a definition of values declares.
pub open spec fn definition_findings(
    rows: Seq<RowModel>,
    file: Seq<char>,
    module: Seq<Seq<char>>,
    node: int,
) -> FindingsModel {
    let bindings = children_of_kind(rows, node, "let_binding"@);
    value_findings(
        rows,
        file,
        module,
        recursive_group(rows, file, node),
        bindings,
        bindings.len() as int,
    )
}

/// Finds what a definition of values declares.
pub fn analyze_value_definition(
    rows: &Vec<SyntaxRow>,
    file: &SourcePath,
    module: &Vec<String>,
    node: usize,
) -> (result: Findings)
    requires
        node < rows@.len(),
    ensures
        result@ == definition_findings(views(rows@), file@, texts(module@), node as int),
{
    proof {
        assert(views(rows@)[node as int] == rows@[node as int]@);
    }
    let group = if starts_with_text(plain_node_text(rows, node).as_str(), "let rec ") {
        Some(make_group_text(file, &rows[node]))
    } else {
        None
    };
    let bindings = direct_named_children(rows, node, "let_binding");
    let ghost nodes = node_list(bindings@);
    let mut found = Findings::none();
    let mut index: usize = 0;
    proof {
        assert(nodes.len() == bindings@.len());
    }
    while index < bindings.len()
        invariant
            index <= bindings@.len(),
            nodes == node_list(bindings@),
            forall|k: int|
                0 <= k < bindings@.len() ==> node < #[trigger] bindings@[k] < rows@.len(),
            found@ == value_findings(
                views(rows@),
                file@,
                texts(module@),
                optional(group),
                nodes,
                index as int,
            ),
        decreases bindings@.len() - index,
    {
        let binding: usize = bindings[index];
        proof {
            assert(nodes[index as int] == binding);
        }
        match function_from_binding(rows, file, module, binding) {
            Some((function, facts)) => {
                let mut facts = facts;
                let id = function.id.clone();
                match &group {
                    Some(group) => {
                        let ghost before = views(facts@);
                        let fact = make_fact(
                            &id,
                            "recursive-group",
                            ocaml_source_name(id.name.as_str()).as_str(),
                            group.as_str(),
                            function.span.clone(),
                        );
                        let ghost model = fact@;
                        push_fact(&mut facts, fact);
                        proof {
                            assert(before.push(model) =~= before + seq![model]);
                        }
                    },
                    None => {
                        proof {
                            assert(views(facts@) + Seq::<FactModel>::empty() =~= views(facts@));
                        }
                    },
                }
                let mut declared = Findings::none();
                let ghost known = views(facts@);
                declared.add_facts(facts);
                proof {
                    assert(declared@ =~= only_facts(known));
                }
                declared.add_function(function);
                found.append(declared);
                found.append(
                    collect_nested_callables_from_binding(rows, file, module, &id, binding),
                );
            },
            None => {},
        }
        index += 1;
    }
    found
}

/// The facts on the first `count` parameters of a functor.
pub open spec fn functor_facts(
    rows: Seq<RowModel>,
    file: Seq<char>,
    id: SymbolModel,
    parameters: Seq<int>,
    count: int,
) -> Seq<FactModel>
    decreases count,
{
    if count <= 0 {
        Seq::empty()
    } else {
        let before = functor_facts(rows, file, id, parameters, count - 1);
        let parameter = parameters[count - 1];
        match child_of_kind(rows, parameter, "module_name"@) {
            Some(name) => before.push(
                ocaml_fact(
                    id,
                    "functor-parameter"@,
                    decimal((count - 1) as nat),
                    rows[name].text,
                    span_of(file, rows[parameter]),
                ),
            ),
            None => before,
        }
    }
}

fn make_functor_facts(
    rows: &Vec<SyntaxRow>,
    file: &SourcePath,
    id: &SymbolId,
    binding: usize,
) -> (result: Vec<LanguageFact>)
    requires
        binding < rows@.len(),
    ensures
        views(result@) == ({
            let parameters = children_of_kind(
                views(rows@),
                binding as int,
                "module_parameter"@,
            );
            functor_facts(views(rows@), file@, id@, parameters, parameters.len() as int)
        }),
{
    let parameters = direct_named_children(rows, binding, "module_parameter");
    let ghost nodes = node_list(parameters@);
    let mut result = no_facts();
    let mut index: usize = 0;
    proof {
        assert(nodes.len() == parameters@.len());
    }
    while index < parameters.len()
        invariant
            index <= parameters@.len(),
            nodes == node_list(parameters@),
            forall|k: int|
                0 <= k < parameters@.len() ==> #[trigger] parameters@[k] < rows@.len(),
            views(result@) == functor_facts(views(rows@), file@, id@, nodes, index as int),
        decreases parameters@.len() - index,
    {
        let parameter: usize = parameters[index];
        proof {
            assert(nodes[index as int] == parameter);
            assert(views(rows@)[parameter as int] == rows@[parameter as int]@);
        }
        match direct_named_child(rows, parameter, "module_name") {
            Some(name) => {
                proof {
                    assert(views(rows@)[name as int] == rows@[name as int]@);
                }
                push_fact(
                    &mut result,
                    make_fact(
                        id,
                        "functor-parameter",
                        decimal_text(index).as_str(),
                        rows[name].text.as_str(),
                        tree_sitter_span(file, &rows[parameter]),
                    ),
                );
            },
            None => {},
        }
        index += 1;
    }
    result
}

/// What is found in the children from `at` up to `end` of a structure.
pub open spec fn structure_among(
    rows: Seq<RowModel>,
    file: Seq<char>,
    module: Seq<Seq<char>>,
    at: int,
    end: int,
) -> FindingsModel
    decreases rows.len() - at, 3int, 0int,
{
    if at < 0 || at >= end || at >= rows.len() {
        no_findings()
    } else {
        proof {
            ends_are_behind(rows, at);
        }
        let rest = structure_among(rows, file, module, end_of(rows, at), end);
        if !rows[at].named {
            rest
        } else if rows[at].kind == "module_definition"@ {
            let bindings = children_of_kind(rows, at, "module_binding"@);
            both(
                module_findings(rows, file, module, at, bindings, bindings.len() as int),
                rest,
            )
        } else if rows[at].kind == "value_definition"@ {
            both(definition_findings(rows, file, module, at), rest)
        } else {
            rest
        }
    }
}

/// What the first `count` bindings of a module definition declare.
pub open spec fn module_findings(
    rows: Seq<RowModel>,
    file: Seq<char>,
    module: Seq<Seq<char>>,
    node: int,
    bindings: Seq<int>,
    count: int,
) -> FindingsModel
    decreases rows.len() - node, 2int, count,
{
    if count <= 0 || node < 0 {
        no_findings()
    } else {
        let before = module_findings(rows, file, module, node, bindings, count - 1);
        let binding = bindings[count - 1];
        if node < binding < rows.len() {
            both(before, module_binding_findings(rows, file, module, binding))
        } else {
            before
        }
    }
}

/// What a binding of a module declares.
pub open spec fn module_binding_findings(
    rows: Seq<RowModel>,
    file: Seq<char>,
    module: Seq<Seq<char>>,
    binding: int,
) -> FindingsModel
    decreases rows.len() - binding, 1int, 0int,
    when 0 <= binding < rows.len()
{
    match child_of_kind(rows, binding, "module_name"@) {
        None => no_findings(),
        Some(name) => match child_by_field(rows, binding, "body"@) {
            None => no_findings(),
            Some(body) => {
                let id = ocaml_symbol(module, None, rows[name].text);
                let span = span_of(file, rows[binding]);
                if rows[body].kind == "module_path"@ {
                    only_facts(
                        seq![
                            ocaml_fact(
                                id,
                                "module-alias"@,
                                "target"@,
                                plain_text(rows, body),
                                span,
                            ),
                        ],
                    )
                } else if rows[body].kind == "module_application"@ {
                    match module_application(rows, body) {
                        None => no_findings(),
                        Some((functor, values)) => only_facts(
                            seq![
                                ocaml_fact(
                                    id,
                                    "functor-instance"@,
                                    functor,
                                    joined(values, "\t"@),
                                    span,
                                ),
                            ],
                        ),
                    }
                } else {
                    let parameters = children_of_kind(rows, binding, "module_parameter"@);
                    let facts = only_facts(
                        functor_facts(rows, file, id, parameters, parameters.len() as int),
                    );
                    let structure = if rows[body].kind == "structure"@ {
                        Some(body)
                    } else {
                        first_descendant(rows, body, "structure"@)
                    };
                    proof {
                        fields_are_behind(rows, binding + 1, end_of(rows, binding), "body"@);
                        descendants_are_behind(
                            rows,
                            body + 1,
                            end_of(rows, body),
                            "structure"@,
                        );
                    }
                    match structure {
                        None => facts,
                        Some(inner) => both(
                            facts,
                            structure_among(
                                rows,
                                file,
                                module.push(rows[name].text),
                                inner + 1,
                                end_of(rows, inner),
                            ),
                        ),
                    }
                }
            },
        },
    }
}

/// Finds what a structure declares.
pub fn analyze_structure(
    rows: &Vec<SyntaxRow>,
    file: &SourcePath,
    module: &Vec<String>,
    node: usize,
) -> (result: Findings)
    requires
        node < rows@.len(),
    ensures
        result@ == structure_among(
            views(rows@),
            file@,
            texts(module@),
            node + 1,
            end_of(views(rows@), node as int),
        ),
    decreases rows@.len() - node, 3int,
{
    let ghost model = views(rows@);
    let end: usize = find_end(rows, node);
    let mut found = Findings::none();
    let mut at: usize = node + 1;
    let ghost whole = structure_among(model, file@, texts(module@), node + 1, end as int);
    proof {
        assert(both(found@, whole) =~= whole);
    }
    while at < end
        invariant
            node < at <= rows@.len(),
            end <= rows@.len(),
            model == views(rows@),
            both(
                found@,
                structure_among(model, file@, texts(module@), at as int, end as int),
            ) == whole,
        decreases rows@.len() - at,
    {
        let ghost before = found@;
        let next: usize = find_end(rows, at);
        let ghost rest = structure_among(model, file@, texts(module@), next as int, end as int);
        proof {
            assert(model[at as int] == rows@[at as int]@);
        }
        if rows[at].named {
            if is_kind(rows, at, "module_definition") {
                let more = analyze_module_definition(rows, file, module, at);
                let ghost added = more@;
                found.append(more);
                proof {
                    assert(both(before, both(added, rest)) =~= both(both(before, added), rest));
                }
            } else if is_kind(rows, at, "value_definition") {
                let more = analyze_value_definition(rows, file, module, at);
                let ghost added = more@;
                found.append(more);
                proof {
                    assert(both(before, both(added, rest)) =~= both(both(before, added), rest));
                }
            }
        }
        at = next;
    }
    proof {
        assert(both(found@, no_findings()) =~= found@);
    }
    found
}

/// Finds what a definition of modules declares.
pub fn analyze_module_definition(
    rows: &Vec<SyntaxRow>,
    file: &SourcePath,
    module: &Vec<String>,
    node: usize,
) -> (result: Findings)
    requires
        node < rows@.len(),
    ensures
        result@ == ({
            let bindings = children_of_kind(views(rows@), node as int, "module_binding"@);
            module_findings(
                views(rows@),
                file@,
                texts(module@),
                node as int,
                bindings,
                bindings.len() as int,
            )
        }),
    decreases rows@.len() - node, 2int,
{
    let bindings = direct_named_children(rows, node, "module_binding");
    let ghost nodes = node_list(bindings@);
    let mut found = Findings::none();
    let mut index: usize = 0;
    proof {
        assert(nodes.len() == bindings@.len());
        assert(views(rows@).len() == rows@.len());
    }
    while index < bindings.len()
        invariant
            index <= bindings@.len(),
            nodes == node_list(bindings@),
            views(rows@).len() == rows@.len(),
            forall|k: int|
                0 <= k < bindings@.len() ==> node < #[trigger] bindings@[k] < rows@.len(),
            found@ == module_findings(
                views(rows@),
                file@,
                texts(module@),
                node as int,
                nodes,
                index as int,
            ),
        decreases bindings@.len() - index,
    {
        let binding: usize = bindings[index];
        proof {
            assert(nodes[index as int] == binding);
        }
        found.append(analyze_module_binding(rows, file, module, binding));
        index += 1;
    }
    found
}

fn one_fact(fact: LanguageFact) -> (result: Findings)
    ensures
        result@ == only_facts(seq![fact@]),
{
    let mut found = Findings::none();
    let ghost model = fact@;
    found.add_fact(fact);
    proof {
        assert(found@ =~= only_facts(seq![model]));
    }
    found
}

fn analyze_module_binding(
    rows: &Vec<SyntaxRow>,
    file: &SourcePath,
    module: &Vec<String>,
    binding: usize,
) -> (result: Findings)
    requires
        binding < rows@.len(),
    ensures
        result@ == module_binding_findings(
            views(rows@),
            file@,
            texts(module@),
            binding as int,
        ),
    decreases rows@.len() - binding, 1int,
{
    proof {
        assert(views(rows@).len() == rows@.len());
        assert(views(rows@)[binding as int] == rows@[binding as int]@);
    }
    let name = match direct_named_child(rows, binding, "module_name") {
        Some(name) => name,
        None => {
            return Findings::none();
        },
    };
    let body = match child_by_field_name(rows, binding, "body") {
        Some(body) => body,
        None => {
            return Findings::none();
        },
    };
    proof {
        assert(views(rows@)[name as int] == rows@[name as int]@);
    }
    let id = make_symbol(module, None, rows[name].text.as_str());
    let span = tree_sitter_span(file, &rows[binding]);
    if is_kind(rows, body, "module_path") {
        return one_fact(
            make_fact(
                &id,
                "module-alias",
                "target",
                plain_node_text(rows, body).as_str(),
                span,
            ),
        );
    }
    if is_kind(rows, body, "module_application") {
        return match ocaml_module_application(rows, body) {
            None => Findings::none(),
            Some((functor, values)) => one_fact(
                make_fact(
                    &id,
                    "functor-instance",
                    functor.as_str(),
                    join_texts(&values, "\t").as_str(),
                    span,
                ),
            ),
        };
    }
    let facts = make_functor_facts(rows, file, &id, binding);
    let mut found = Findings::none();
    let ghost known = views(facts@);
    found.add_facts(facts);
    proof {
        assert(found@ =~= only_facts(known));
    }
    let structure = if is_kind(rows, body, "structure") {
        Some(body)
    } else {
        first_descendant_of_kind(rows, body, "structure")
    };
    match structure {
        None => {},
        Some(inner) => {
            let mut nested = copy_texts(module);
            let ghost before = texts(nested@);
            nested.push(rows[name].text.clone());
            proof {
                assert(texts(nested@) =~= before.push(rows@[name as int].text@));
            }
            found.append(analyze_structure(rows, file, &nested, inner));
        },
    }
    found
}

} // verus!
