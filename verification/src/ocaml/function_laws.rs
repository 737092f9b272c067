//! Which functions an OCaml source has: one for each binding of a function and
//! for each anonymous function, in whatever modules it stands.
use crate::lists::joint_items;
use crate::model::FunctionModel;
use crate::ocaml::call_laws::{children_of_a_kind, has_parameters};
use crate::ocaml::declarations::{
    declared_function, inner_body, lambda_body, lambda_function, local_function, nested_among,
    nested_in, nested_in_binding, unfolded,
};
use crate::ocaml::expressions::calls_in_body;
use crate::ocaml::extract::{both, FindingsModel};
use crate::ocaml::node_laws::{
    at_child, ends_tell_what_lies_in, fields_are_found, first_row_is_a_child,
    found_fields_are_fields, is_child, is_field_of, lies_in, next_row_is_a_child,
};
use crate::ocaml::patterns::is_identifier;
use crate::ocaml::structure::{
    definition_findings, module_binding_findings, module_findings, recursive_group,
    structure_among, value_findings,
};
use crate::ocaml::syntax::{
    child_by_field, child_of_kind, children_of_kind, end_of, span_of, RowModel,
};
use crate::text::trimmed;
use vstd::prelude::*;

verus! {

/// Whether a node is a named child of another one, and of a kind.
pub open spec fn is_part(rows: Seq<RowModel>, node: int, kind: Seq<char>, child: int) -> bool {
    is_child(rows, node, child) && rows[child].named && rows[child].kind == kind
}

/// Whether a node is the first part of another one that is of a kind.
pub open spec fn is_first_part(
    rows: Seq<RowModel>,
    node: int,
    kind: Seq<char>,
    child: int,
) -> bool {
    is_part(rows, node, kind, child) && forall|other: int| #[trigger]
        is_part(rows, node, kind, other) ==> child <= other
}

/// Whether a node is the body that runs when a function is called: what stands
/// behind the `fun`s that it begins with.
pub open spec fn is_run_body(rows: Seq<RowModel>, body: int, last: int) -> bool
    decreases rows.len() - body,
{
    if !(0 <= body < rows.len()) {
        false
    } else if rows[body].kind == "fun_expression"@ {
        exists|inner: int|
            body < inner && #[trigger] is_field_of(rows, body, "body"@, inner) && is_run_body(
                rows,
                inner,
                last,
            )
    } else {
        last == body
    }
}

/// Whether a binding gives a name to a function: it has parameters, or its body
/// is an anonymous function.
pub open spec fn binds_a_function(
    rows: Seq<RowModel>,
    binding: int,
    pattern: int,
    body: int,
    last: int,
) -> bool {
    &&& is_field_of(rows, binding, "pattern"@, pattern)
    &&& rows[pattern].kind == "value_name"@ || rows[pattern].kind == "value_pattern"@
    &&& is_identifier(trimmed(rows[pattern].text))
    &&& is_field_of(rows, binding, "body"@, body)
    &&& is_run_body(rows, body, last)
    &&& has_parameters(rows, binding) || rows[body].kind == "fun_expression"@ || rows[body].kind
        == "function_expression"@
}

proof fn run_bodies_are_unfolded(rows: Seq<RowModel>, body: int, last: int)
    requires
        is_run_body(rows, body, last),
    ensures
        unfolded(rows, body).1 == last,
        (rows[body].kind == "fun_expression"@ || rows[body].kind == "function_expression"@)
            ==> unfolded(rows, body).2,
        inner_body(rows, body) == Some(last),
        body <= last < rows.len(),
    decreases rows.len() - body,
{
    if rows[body].kind == "fun_expression"@ {
        let inner = choose|inner: int|
            body < inner && #[trigger] is_field_of(rows, body, "body"@, inner) && is_run_body(
                rows,
                inner,
                last,
            );
        fields_are_found(rows, body, "body"@, inner);
        run_bodies_are_unfolded(rows, inner, last);
    }
}

spec fn function_of(
    rows: Seq<RowModel>,
    file: Seq<char>,
    module: Seq<Seq<char>>,
    binding: int,
) -> FunctionModel {
    (declared_function(rows, file, module, binding)->0).0
}

proof fn bound_functions_are_declared(
    rows: Seq<RowModel>,
    file: Seq<char>,
    module: Seq<Seq<char>>,
    binding: int,
    pattern: int,
    body: int,
    last: int,
)
    requires
        0 <= binding < rows.len(),
        rows[binding].kind == "let_binding"@,
        binds_a_function(rows, binding, pattern, body, last),
    ensures
        declared_function(rows, file, module, binding) is Some,
        ({
            let found = function_of(rows, file, module, binding);
            &&& found.id.language == "ocaml"@
            &&& found.id.module == module
            &&& found.id.container is None
            &&& found.id.name == trimmed(rows[pattern].text)
            &&& found.span == span_of(file, rows[binding])
            &&& found.calls == calls_in_body(rows, file, last)
        }),
{
    fields_are_found(rows, binding, "pattern"@, pattern);
    fields_are_found(rows, binding, "body"@, body);
    run_bodies_are_unfolded(rows, body, last);
    let direct = children_of_kind(rows, binding, "parameter"@);
    let more = unfolded(rows, body).0;
    if has_parameters(rows, binding) {
        let child = choose|child: int|
            #[trigger] is_child(rows, binding, child) && rows[child].named && rows[child].kind
                == "parameter"@;
        children_of_a_kind(rows, binding, "parameter"@, child);
        assert(direct.len() > 0);
    }
    assert((direct + more).len() == direct.len() + more.len());
}

/// Whether a function is the one that a binding of a module gives a name to.
pub open spec fn is_bound_there(
    found: FunctionModel,
    rows: Seq<RowModel>,
    file: Seq<char>,
    module: Seq<Seq<char>>,
    binding: int,
    pattern: int,
    last: int,
) -> bool {
    &&& found.id.language == "ocaml"@
    &&& found.id.module == module
    &&& found.id.container is None
    &&& found.id.name == trimmed(rows[pattern].text)
    &&& found.span == span_of(file, rows[binding])
    &&& found.calls == calls_in_body(rows, file, last)
}

proof fn both_hold_each(left: FindingsModel, right: FindingsModel, found: FunctionModel)
    ensures
        both(left, right).functions.contains(found) == (left.functions.contains(found)
            || right.functions.contains(found)),
{
    joint_items(left.functions, right.functions, found);
}

proof fn values_are_found(
    rows: Seq<RowModel>,
    file: Seq<char>,
    module: Seq<Seq<char>>,
    group: Option<Seq<char>>,
    bindings: Seq<int>,
    count: int,
    at: int,
)
    requires
        0 <= at < count <= bindings.len(),
        declared_function(rows, file, module, bindings[at]) is Some,
    ensures
        value_findings(rows, file, module, group, bindings, count).functions.contains(
            function_of(rows, file, module, bindings[at]),
        ),
        forall|other: FunctionModel| #[trigger]
            nested_in_binding(
                rows,
                file,
                module,
                function_of(rows, file, module, bindings[at]).id,
                bindings[at],
            ).functions.contains(other) ==> value_findings(
                rows,
                file,
                module,
                group,
                bindings,
                count,
            ).functions.contains(other),
    decreases count,
{
    let found = function_of(rows, file, module, bindings[at]);
    let inner = nested_in_binding(rows, file, module, found.id, bindings[at]);
    let before = value_findings(rows, file, module, group, bindings, count - 1);
    let after = value_findings(rows, file, module, group, bindings, count);
    if at < count - 1 {
        values_are_found(rows, file, module, group, bindings, count - 1, at);
        assert forall|other: FunctionModel| before.functions.contains(
            other,
        ) implies #[trigger] after.functions.contains(other) by {
            match declared_function(rows, file, module, bindings[count - 1]) {
                Some((function, facts)) => {
                    added_values(
                        before,
                        function,
                        facts + crate::ocaml::structure::group_facts(function, group),
                        nested_in_binding(rows, file, module, function.id, bindings[count - 1]),
                        other,
                    );
                },
                None => {},
            }
        }
    } else {
        let facts = (declared_function(rows, file, module, bindings[at])->0).1;
        let all = facts + crate::ocaml::structure::group_facts(found, group);
        added_values(before, found, all, inner, found);
        assert forall|other: FunctionModel| inner.functions.contains(
            other,
        ) implies #[trigger] after.functions.contains(other) by {
            added_values(before, found, all, inner, other);
        }
    }
}

proof fn added_values(
    before: FindingsModel,
    function: FunctionModel,
    facts: Seq<crate::model::FactModel>,
    inner: FindingsModel,
    other: FunctionModel,
)
    ensures
        both(
            both(
                before,
                both(
                    crate::ocaml::extract::only_facts(facts),
                    crate::ocaml::extract::only_function(function),
                ),
            ),
            inner,
        ).functions.contains(other) == (before.functions.contains(other) || other == function
            || inner.functions.contains(other)),
{
    let own = both(
        crate::ocaml::extract::only_facts(facts),
        crate::ocaml::extract::only_function(function),
    );
    both_hold_each(
        crate::ocaml::extract::only_facts(facts),
        crate::ocaml::extract::only_function(function),
        other,
    );
    both_hold_each(before, own, other);
    both_hold_each(both(before, own), inner, other);
    assert(seq![function].contains(other) == (other == function)) by {
        assert(seq![function][0] == function);
    }
}

/// Whether a structure that a module is stands in a structure.
pub open spec fn is_module_in(
    rows: Seq<RowModel>,
    structure: int,
    definition: int,
    binding: int,
    name: int,
    inner: int,
) -> bool {
    &&& is_part(rows, structure, "module_definition"@, definition)
    &&& is_part(rows, definition, "module_binding"@, binding)
    &&& is_first_part(rows, binding, "module_name"@, name)
    &&& is_field_of(rows, binding, "body"@, inner)
    &&& rows[inner].kind == "structure"@
}

/// A module on the way to a function: its definition, its binding, its name and
/// the structure that it is.
pub struct ModuleStep {
    pub definition: int,
    pub binding: int,
    pub name: int,
    pub inner: int,
}

/// Whether a definition stands in a structure, below some modules in a row.
pub open spec fn stands_below(
    rows: Seq<RowModel>,
    structure: int,
    modules: Seq<ModuleStep>,
    definition: int,
) -> bool
    decreases modules.len(),
{
    if modules.len() == 0 {
        is_part(rows, structure, "value_definition"@, definition)
    } else {
        let first = modules[0];
        is_module_in(rows, structure, first.definition, first.binding, first.name, first.inner)
            && stands_below(rows, first.inner, modules.skip(1), definition)
    }
}

/// The names of the modules on the way.
pub open spec fn names_on_the_way(rows: Seq<RowModel>, modules: Seq<ModuleStep>) -> Seq<Seq<char>> {
    modules.map_values(|step: ModuleStep| rows[step.name].text)
}

proof fn structures_are_read_from(
    rows: Seq<RowModel>,
    file: Seq<char>,
    module: Seq<Seq<char>>,
    structure: int,
    at: int,
    child: int,
    found: FunctionModel,
)
    requires
        at_child(rows, structure, at),
        at <= child,
        is_child(rows, structure, child),
        rows[child].named,
        ({
            let bindings = children_of_kind(rows, child, "module_binding"@);
            ||| rows[child].kind == "value_definition"@ && definition_findings(
                rows,
                file,
                module,
                child,
            ).functions.contains(found)
            ||| rows[child].kind == "module_definition"@ && module_findings(
                rows,
                file,
                module,
                child,
                bindings,
                bindings.len() as int,
            ).functions.contains(found)
        }),
    ensures
        structure_among(rows, file, module, at, end_of(rows, structure)).functions.contains(found),
    decreases rows.len() - at,
{
    let end = end_of(rows, structure);
    ends_tell_what_lies_in(rows, structure, child);
    next_row_is_a_child(rows, structure, at);
    let next = end_of(rows, at);
    let rest = structure_among(rows, file, module, next, end);
    let bindings = children_of_kind(rows, at, "module_binding"@);
    reveal_strlit("value_definition");
    reveal_strlit("module_definition");
    assert("value_definition"@.len() == 16 && "module_definition"@.len() == 17);
    if at < child {
        ends_tell_what_lies_in(rows, at, child);
        structures_are_read_from(rows, file, module, structure, next, child, found);
    }
    both_hold_each(
        module_findings(rows, file, module, at, bindings, bindings.len() as int),
        rest,
        found,
    );
    both_hold_each(definition_findings(rows, file, module, at), rest, found);
}

proof fn modules_are_read(
    rows: Seq<RowModel>,
    file: Seq<char>,
    module: Seq<Seq<char>>,
    node: int,
    bindings: Seq<int>,
    count: int,
    at: int,
    found: FunctionModel,
)
    requires
        0 <= node,
        0 <= at < count <= bindings.len(),
        node < bindings[at] < rows.len(),
        module_binding_findings(rows, file, module, bindings[at]).functions.contains(found),
    ensures
        module_findings(rows, file, module, node, bindings, count).functions.contains(found),
    decreases count,
{
    let before = module_findings(rows, file, module, node, bindings, count - 1);
    both_hold_each(
        before,
        module_binding_findings(rows, file, module, bindings[count - 1]),
        found,
    );
    if at < count - 1 {
        modules_are_read(rows, file, module, node, bindings, count - 1, at, found);
    }
}

/// Of the parts that are of a kind, the first one is found.
proof fn first_parts_are_found(rows: Seq<RowModel>, node: int, kind: Seq<char>, child: int)
    requires
        0 <= node < rows.len(),
        is_first_part(rows, node, kind, child),
    ensures
        child_of_kind(rows, node, kind) == Some(child),
{
    let found = children_of_kind(rows, node, kind);
    children_of_a_kind(rows, node, kind, child);
    assert(found.len() > 0);
    let first = found[0];
    assert(found.contains(first));
    children_of_a_kind(rows, node, kind, first);
    assert(is_part(rows, node, kind, first));
    crate::ocaml::branch_laws::children_in_order(rows, node, kind);
    let at = choose|at: int| 0 <= at < found.len() && found[at] == child;
    if at > 0 {
        assert(found[0] < found[at]);
    }
}

proof fn functions_below_are_found(
    rows: Seq<RowModel>,
    file: Seq<char>,
    module: Seq<Seq<char>>,
    structure: int,
    modules: Seq<ModuleStep>,
    definition: int,
    binding: int,
    pattern: int,
    body: int,
    last: int,
) -> (found: FunctionModel)
    requires
        0 <= structure < rows.len(),
        stands_below(rows, structure, modules, definition),
        is_part(rows, definition, "let_binding"@, binding),
        binds_a_function(rows, binding, pattern, body, last),
    ensures
        structure_among(
            rows,
            file,
            module,
            structure + 1,
            end_of(rows, structure),
        ).functions.contains(found),
        is_bound_there(
            found,
            rows,
            file,
            module + names_on_the_way(rows, modules),
            binding,
            pattern,
            last,
        ),
        forall|other: FunctionModel| #[trigger]
            nested_in_binding(
                rows,
                file,
                module + names_on_the_way(rows, modules),
                found.id,
                binding,
            ).functions.contains(other) ==> structure_among(
                rows,
                file,
                module,
                structure + 1,
                end_of(rows, structure),
            ).functions.contains(other),
    decreases modules.len(),
{
    first_row_is_a_child(rows, structure);
    let all = structure_among(rows, file, module, structure + 1, end_of(rows, structure));
    if modules.len() == 0 {
        assert(module + names_on_the_way(rows, modules) =~= module);
        bound_functions_are_declared(rows, file, module, binding, pattern, body, last);
        let found = function_of(rows, file, module, binding);
        let bindings = children_of_kind(rows, definition, "let_binding"@);
        children_of_a_kind(rows, definition, "let_binding"@, binding);
        let at = choose|at: int| 0 <= at < bindings.len() && bindings[at] == binding;
        values_are_found(
            rows,
            file,
            module,
            recursive_group(rows, file, definition),
            bindings,
            bindings.len() as int,
            at,
        );
        structures_are_read_from(rows, file, module, structure, structure + 1, definition, found);
        assert forall|other: FunctionModel| #[trigger] nested_in_binding(
            rows,
            file,
            module,
            found.id,
            binding,
        ).functions.contains(other) implies all.functions.contains(other) by {
            structures_are_read_from(
                rows,
                file,
                module,
                structure,
                structure + 1,
                definition,
                other,
            );
        }
        found
    } else {
        let step = modules[0];
        let name = rows[step.name].text;
        let inner = module.push(name);
        let rest = modules.skip(1);
        let found = functions_below_are_found(
            rows,
            file,
            inner,
            step.inner,
            rest,
            definition,
            binding,
            pattern,
            body,
            last,
        );
        assert(names_on_the_way(rows, modules) =~= seq![name] + names_on_the_way(rows, rest));
        assert(module + names_on_the_way(rows, modules) =~= inner + names_on_the_way(rows, rest));
        module_steps_are_read(rows, file, module, structure, step, found);
        assert forall|other: FunctionModel| #[trigger] nested_in_binding(
            rows,
            file,
            module + names_on_the_way(rows, modules),
            found.id,
            binding,
        ).functions.contains(other) implies all.functions.contains(other) by {
            module_steps_are_read(rows, file, module, structure, step, other);
        }
        found
    }
}

proof fn module_steps_are_read(
    rows: Seq<RowModel>,
    file: Seq<char>,
    module: Seq<Seq<char>>,
    structure: int,
    step: ModuleStep,
    found: FunctionModel,
)
    requires
        0 <= structure < rows.len(),
        is_module_in(
            rows,
            structure,
            step.definition,
            step.binding,
            step.name,
            step.inner,
        ),
        structure_among(
            rows,
            file,
            module.push(rows[step.name].text),
            step.inner + 1,
            end_of(rows, step.inner),
        ).functions.contains(found),
    ensures
        structure_among(
            rows,
            file,
            module,
            structure + 1,
            end_of(rows, structure),
        ).functions.contains(found),
{
    first_row_is_a_child(rows, structure);
    first_parts_are_found(rows, step.binding, "module_name"@, step.name);
    fields_are_found(rows, step.binding, "body"@, step.inner);
    reveal_strlit("structure");
    reveal_strlit("module_path");
    reveal_strlit("module_application");
    assert("structure"@.len() == 9 && "module_path"@.len() == 11);
    assert("module_application"@.len() == 18);
    let bindings = children_of_kind(rows, step.definition, "module_binding"@);
    children_of_a_kind(rows, step.definition, "module_binding"@, step.binding);
    let at = choose|at: int| 0 <= at < bindings.len() && bindings[at] == step.binding;
    let parameters = children_of_kind(rows, step.binding, "module_parameter"@);
    let id = crate::ocaml::extract::ocaml_symbol(module, None, rows[step.name].text);
    both_hold_each(
        crate::ocaml::extract::only_facts(
            crate::ocaml::structure::functor_facts(
                rows,
                file,
                id,
                parameters,
                parameters.len() as int,
            ),
        ),
        structure_among(
            rows,
            file,
            module.push(rows[step.name].text),
            step.inner + 1,
            end_of(rows, step.inner),
        ),
        found,
    );
    modules_are_read(
        rows,
        file,
        module,
        step.definition,
        bindings,
        bindings.len() as int,
        at,
        found,
    );
    structures_are_read_from(
        rows,
        file,
        module,
        structure,
        structure + 1,
        step.definition,
        found,
    );
}

/// Each function that a source binds is found, below whatever modules it
/// stands: under its name, with the calls of its body.
pub proof fn bound_functions_are_found(
    rows: Seq<RowModel>,
    file: Seq<char>,
    module: Seq<Seq<char>>,
    modules: Seq<ModuleStep>,
    definition: int,
    binding: int,
    pattern: int,
    body: int,
    last: int,
) -> (found: FunctionModel)
    requires
        rows.len() > 0,
        stands_below(rows, 0, modules, definition),
        is_part(rows, definition, "let_binding"@, binding),
        binds_a_function(rows, binding, pattern, body, last),
    ensures
        crate::ocaml::analyze::found_in(file, module, rows).functions.contains(found),
        is_bound_there(
            found,
            rows,
            file,
            crate::ocaml::analyze::module_names(module) + names_on_the_way(rows, modules),
            binding,
            pattern,
            last,
        ),
{
    functions_below_are_found(
        rows,
        file,
        crate::ocaml::analyze::module_names(module),
        0,
        modules,
        definition,
        binding,
        pattern,
        body,
        last,
    )
}

/// Whether a node is an anonymous function.
pub open spec fn is_anonymous(rows: Seq<RowModel>, node: int) -> bool {
    rows[node].kind == "fun_expression"@ || rows[node].kind == "function_expression"@
}

/// Whether a node gives no name to a function.
pub open spec fn binds_no_function(rows: Seq<RowModel>, node: int) -> bool {
    rows[node].kind == "let_binding"@ ==> !has_parameters(rows, node) && forall|body: int|
        #[trigger] is_field_of(rows, node, "body"@, body) ==> !is_anonymous(rows, body)
}

/// Whether a node stands in a body, and in no other function in it.
pub open spec fn stands_directly(rows: Seq<RowModel>, top: int, node: int) -> bool {
    top < node && lies_in(rows, top, node) && rows[node].named && forall|between: int|
        top < between < node && #[trigger] lies_in(rows, between, node) ==> rows[between].named
            && !is_anonymous(rows, between) && binds_no_function(rows, between)
}

/// Whether a function is the one that stands at a node in another function.
pub open spec fn is_nested_there(
    found: FunctionModel,
    rows: Seq<RowModel>,
    file: Seq<char>,
    node: int,
) -> bool {
    &&& found.span == span_of(file, rows[node])
    &&& found.id.container is Some
    &&& if rows[node].kind == "let_binding"@ {
        exists|pattern: int, body: int, last: int|
            #[trigger] binds_a_function(rows, node, pattern, body, last) && found.calls
                == calls_in_body(rows, file, last)
    } else {
        forall|body: int| #[trigger]
            is_field_of(rows, node, "body"@, body) ==> found.calls == calls_in_body(
                rows,
                file,
                body,
            )
    }
}

/// Whether a function stands at a node: an anonymous one, or one with a name.
pub open spec fn is_function_there(rows: Seq<RowModel>, node: int) -> bool {
    is_anonymous(rows, node) || (rows[node].kind == "let_binding"@ && exists|
        pattern: int,
        body: int,
        last: int,
    |
        #[trigger] binds_a_function(rows, node, pattern, body, last))
}

proof fn plain_bindings_declare_nothing(
    rows: Seq<RowModel>,
    file: Seq<char>,
    module: Seq<Seq<char>>,
    node: int,
)
    requires
        0 <= node < rows.len(),
        rows[node].kind == "let_binding"@,
        binds_no_function(rows, node),
    ensures
        declared_function(rows, file, module, node) is None,
{
    let direct = children_of_kind(rows, node, "parameter"@);
    if direct.len() > 0 {
        assert(direct.contains(direct[0]));
        children_of_a_kind(rows, node, "parameter"@, direct[0]);
        assert(is_child(rows, node, direct[0]));
    }
    match child_by_field(rows, node, "body"@) {
        Some(body) => {
            found_fields_are_fields(rows, node, "body"@, body);
            assert(!is_anonymous(rows, body));
            assert((direct + unfolded(rows, body).0).len() == 0);
        },
        None => {},
    }
}

proof fn own_functions_come_first(
    rows: Seq<RowModel>,
    file: Seq<char>,
    module: Seq<Seq<char>>,
    owner: crate::model::SymbolModel,
    node: int,
    ordinal: usize,
) -> (found: FunctionModel)
    requires
        0 <= node < rows.len(),
        is_function_there(rows, node),
    ensures
        nested_in(rows, file, module, owner, node, ordinal).0.functions.contains(found),
        is_nested_there(found, rows, file, node),
{
    reveal_strlit("let_binding");
    reveal_strlit("fun_expression");
    reveal_strlit("function_expression");
    assert("let_binding"@.len() == 11 && "fun_expression"@.len() == 14);
    assert("function_expression"@.len() == 19);
    if rows[node].kind == "let_binding"@ {
        let (pattern, body, last) = choose|pattern: int, body: int, last: int|
            #[trigger] binds_a_function(rows, node, pattern, body, last);
        bound_functions_are_declared(rows, file, module, node, pattern, body, last);
        let (function, facts) = declared_function(rows, file, module, node)->0;
        let found = local_function(function, owner, ordinal);
        let facts = crate::ocaml::declarations::with_subject(facts, function.id, found.id)
            + crate::ocaml::declarations::scope_facts(
            rows,
            file,
            found.id,
            function.id.name,
            node,
        );
        nested_values(
            found,
            facts,
            nested_in_binding(rows, file, module, found.id, node),
        );
        found
    } else {
        let found = lambda_function(rows, file, module, owner, node, ordinal);
        let body = lambda_body(rows, node);
        nested_values(
            found,
            crate::ocaml::declarations::lambda_facts(rows, file, module, owner, node, ordinal),
            nested_among(rows, file, module, found.id, body + 1, end_of(rows, body), 0).0,
        );
        assert forall|inner: int| #[trigger] is_field_of(
            rows,
            node,
            "body"@,
            inner,
        ) implies found.calls == calls_in_body(rows, file, inner) by {
            fields_are_found(rows, node, "body"@, inner);
        }
        found
    }
}

proof fn nested_values(
    function: FunctionModel,
    facts: Seq<crate::model::FactModel>,
    inner: FindingsModel,
)
    ensures
        both(
            both(
                crate::ocaml::extract::only_facts(facts),
                crate::ocaml::extract::only_function(function),
            ),
            inner,
        ).functions.contains(function),
{
    let own = both(
        crate::ocaml::extract::only_facts(facts),
        crate::ocaml::extract::only_function(function),
    );
    both_hold_each(
        crate::ocaml::extract::only_facts(facts),
        crate::ocaml::extract::only_function(function),
        function,
    );
    both_hold_each(own, inner, function);
    assert(seq![function].contains(function)) by {
        assert(seq![function][0] == function);
    }
}

proof fn nested_are_found_in(
    rows: Seq<RowModel>,
    file: Seq<char>,
    module: Seq<Seq<char>>,
    owner: crate::model::SymbolModel,
    top: int,
    node: int,
    ordinal: usize,
) -> (found: FunctionModel)
    requires
        0 <= top,
        stands_directly(rows, top, node) || (top == node && top < rows.len()),
        top < node ==> !is_anonymous(rows, top) && binds_no_function(rows, top),
        is_function_there(rows, node),
    ensures
        nested_in(rows, file, module, owner, top, ordinal).0.functions.contains(found),
        is_nested_there(found, rows, file, node),
    decreases rows.len() - top, 0int,
{
    if top == node {
        own_functions_come_first(rows, file, module, owner, node, ordinal)
    } else {
        if rows[top].kind == "let_binding"@ {
            plain_bindings_declare_nothing(rows, file, module, top);
        }
        first_row_is_a_child(rows, top);
        nested_are_found_among(rows, file, module, owner, top, top + 1, node, ordinal)
    }
}

proof fn nested_are_found_among(
    rows: Seq<RowModel>,
    file: Seq<char>,
    module: Seq<Seq<char>>,
    owner: crate::model::SymbolModel,
    top: int,
    at: int,
    node: int,
    ordinal: usize,
) -> (found: FunctionModel)
    requires
        at_child(rows, top, at),
        at <= node,
        stands_directly(rows, top, node),
        is_function_there(rows, node),
    ensures
        nested_among(
            rows,
            file,
            module,
            owner,
            at,
            end_of(rows, top),
            ordinal,
        ).0.functions.contains(found),
        is_nested_there(found, rows, file, node),
    decreases rows.len() - at, 1int,
{
    let end = end_of(rows, top);
    ends_tell_what_lies_in(rows, top, node);
    next_row_is_a_child(rows, top, at);
    ends_tell_what_lies_in(rows, at, node);
    let next = end_of(rows, at);
    let (first, then_ordinal) = nested_in(rows, file, module, owner, at, ordinal);
    if lies_in(rows, at, node) {
        let rest = nested_among(rows, file, module, owner, next, end, then_ordinal).0;
        if at < node {
            assert(rows[at].named && !is_anonymous(rows, at) && binds_no_function(rows, at));
        }
        let found = nested_are_found_in(rows, file, module, owner, at, node, ordinal);
        both_hold_each(first, rest, found);
        found
    } else if rows[at].named {
        let found = nested_are_found_among(
            rows,
            file,
            module,
            owner,
            top,
            next,
            node,
            then_ordinal,
        );
        both_hold_each(
            first,
            nested_among(rows, file, module, owner, next, end, then_ordinal).0,
            found,
        );
        found
    } else {
        nested_are_found_among(rows, file, module, owner, top, next, node, ordinal)
    }
}

/// Each function that stands in the body of a function is found too, anonymous
/// or with a name: where it stands, with the calls of its own body.
pub proof fn nested_functions_are_found(
    rows: Seq<RowModel>,
    file: Seq<char>,
    module: Seq<Seq<char>>,
    modules: Seq<ModuleStep>,
    definition: int,
    binding: int,
    pattern: int,
    body: int,
    last: int,
    node: int,
) -> (found: FunctionModel)
    requires
        rows.len() > 0,
        stands_below(rows, 0, modules, definition),
        is_part(rows, definition, "let_binding"@, binding),
        binds_a_function(rows, binding, pattern, body, last),
        rows[last].kind != "let_binding"@,
        stands_directly(rows, last, node),
        is_function_there(rows, node),
    ensures
        crate::ocaml::analyze::found_in(file, module, rows).functions.contains(found),
        is_nested_there(found, rows, file, node),
{
    let names = crate::ocaml::analyze::module_names(module);
    let owner = functions_below_are_found(
        rows,
        file,
        names,
        0,
        modules,
        definition,
        binding,
        pattern,
        body,
        last,
    );
    run_bodies_are_unfolded(rows, body, last);
    fields_are_found(rows, binding, "body"@, body);
    run_bodies_are_no_functions(rows, body, last);
    let inner = names + names_on_the_way(rows, modules);
    let found = if rows[last].kind == "function_expression"@ {
        first_row_is_a_child(rows, last);
        nested_are_found_among(rows, file, inner, owner.id, last, last + 1, node, 0)
    } else {
        nested_are_found_in(rows, file, inner, owner.id, last, node, 0)
    };
    assert(nested_in_binding(rows, file, inner, owner.id, binding).functions.contains(found));
    found
}

proof fn run_bodies_are_no_functions(rows: Seq<RowModel>, body: int, last: int)
    requires
        is_run_body(rows, body, last),
    ensures
        rows[last].kind != "fun_expression"@,
    decreases rows.len() - body,
{
    if rows[body].kind == "fun_expression"@ {
        let inner = choose|inner: int|
            body < inner && #[trigger] is_field_of(rows, body, "body"@, inner) && is_run_body(
                rows,
                inner,
                last,
            );
        run_bodies_are_no_functions(rows, inner, last);
    }
}

} // verus!
