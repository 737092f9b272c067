//! The functions that OCaml sources declare, and what is known of them.
use crate::lists::views;
use crate::model::{
    FactModel, FunctionInfo, FunctionModel, LanguageFact, LanguageId, SourceSpan, SpanModel,
    SymbolId, SymbolModel,
};
use crate::ocaml::bindings::{
    bindings_of, collect_ocaml_parameter_bindings, project_ocaml_argument, projected,
    BindingModel, OcamlParameterBinding, OcamlParameterKind, OcamlProjection, StepModel,
};
use crate::ocaml::expressions::{
    binds_function, collect_ocaml_callable_outcomes, is_function_binding, is_function_expression,
    is_function_node, outcomes, plain_node_text, plain_text,
};
use crate::ocaml::patterns::{is_identifier, is_value_identifier};
use crate::ocaml::syntax::{
    child_by_field, child_by_field_name, child_of_kind, children_of_kind, direct_named_child,
    direct_named_children, end_of, ends_are_behind, find_end, is_kind, node_list, optional_node,
    span_of, tree_sitter_span, RowModel, SyntaxRow,
};
use crate::ocaml::words::{normal, normalize_source};
use crate::paths::SourcePath;
use crate::text::{
    chars_of, concat_texts, copy_texts, decimal, decimal_text, optional, same_text, texts,
    trim_start_text, trimmed_start,
};
use vstd::prelude::*;

verus! {

/// Functions and facts that were found.
pub struct Findings {
    pub functions: Vec<FunctionInfo>,
    pub facts: Vec<LanguageFact>,
}

#[verifier::ext_equal]
pub struct FindingsModel {
    pub functions: Seq<FunctionModel>,
    pub facts: Seq<FactModel>,
}

impl View for Findings {
    type V = FindingsModel;

    open spec fn view(&self) -> FindingsModel {
        FindingsModel { functions: views(self.functions@), facts: views(self.facts@) }
    }
}

/// Nothing was found.
pub open spec fn no_findings() -> FindingsModel {
    FindingsModel { functions: Seq::empty(), facts: Seq::empty() }
}

/// What was found, and what was found after it.
pub open spec fn both(left: FindingsModel, right: FindingsModel) -> FindingsModel {
    FindingsModel {
        functions: left.functions + right.functions,
        facts: left.facts + right.facts,
    }
}

impl Findings {
    /// Nothing was found.
    pub fn none() -> (result: Self)
        ensures
            result@ == no_findings(),
    {
        let result = Findings { functions: Vec::new(), facts: Vec::new() };
        proof {
            assert(result@ =~= no_findings());
        }
        result
    }

    /// Adds what was found after.
    pub fn append(&mut self, more: Findings)
        ensures
            final(self)@ == both(old(self)@, more@),
    {
        let ghost before = self@;
        let ghost added = more@;
        let mut functions = more.functions;
        let mut facts = more.facts;
        self.functions.append(&mut functions);
        self.facts.append(&mut facts);
        proof {
            assert(self@ =~= both(before, added));
        }
    }

    /// Adds facts.
    pub fn add_facts(&mut self, more: Vec<LanguageFact>)
        ensures
            final(self)@ == both(
                old(self)@,
                (FindingsModel { functions: Seq::empty(), facts: views(more@) }),
            ),
    {
        let ghost before = self@;
        let ghost added = views(more@);
        let mut facts = more;
        self.facts.append(&mut facts);
        proof {
            assert(self@.facts =~= before.facts + added);
            assert(self@.functions =~= before.functions + Seq::empty());
        }
    }

    /// Adds a fact.
    pub fn add_fact(&mut self, fact: LanguageFact)
        ensures
            final(self)@ == both(
                old(self)@,
                (FindingsModel { functions: Seq::empty(), facts: seq![fact@] }),
            ),
    {
        let ghost before = self@;
        let ghost model = fact@;
        self.facts.push(fact);
        proof {
            assert(self@.facts =~= before.facts + seq![model]);
            assert(self@.functions =~= before.functions + Seq::empty());
        }
    }

    /// Adds a function.
    pub fn add_function(&mut self, function: FunctionInfo)
        ensures
            final(self)@ == both(
                old(self)@,
                (FindingsModel { functions: seq![function@], facts: Seq::empty() }),
            ),
    {
        let ghost before = self@;
        let ghost model = function@;
        self.functions.push(function);
        proof {
            assert(self@.functions =~= before.functions + seq![model]);
            assert(self@.facts =~= before.facts + Seq::empty());
        }
    }
}

/// Facts alone.
pub open spec fn only_facts(facts: Seq<FactModel>) -> FindingsModel {
    FindingsModel { functions: Seq::empty(), facts }
}

/// A function alone.
pub open spec fn only_function(function: FunctionModel) -> FindingsModel {
    FindingsModel { functions: seq![function], facts: Seq::empty() }
}

/// A fact about an OCaml symbol.
pub open spec fn ocaml_fact(
    subject: SymbolModel,
    kind: Seq<char>,
    key: Seq<char>,
    value: Seq<char>,
    span: SpanModel,
) -> FactModel {
    FactModel { subject, namespace: "ocaml"@, kind, key, value, span }
}

pub(crate) fn make_fact(subject: &SymbolId, kind: &str, key: &str, value: &str, span: SourceSpan) -> (result:
    LanguageFact)
    ensures
        result@ == ocaml_fact(subject@, kind@, key@, value@, span@),
{
    LanguageFact {
        subject: subject.clone(),
        namespace: LanguageId::new("ocaml"),
        kind: kind.to_owned(),
        key: key.to_owned(),
        value: value.to_owned(),
        span,
    }
}

/// An OCaml symbol.
pub open spec fn ocaml_symbol(
    module: Seq<Seq<char>>,
    container: Option<Seq<char>>,
    name: Seq<char>,
) -> SymbolModel {
    SymbolModel { language: "ocaml"@, module, container, name }
}

pub(crate) fn make_symbol(module: &Vec<String>, container: Option<String>, name: &str) -> (result: SymbolId)
    ensures
        result@ == ocaml_symbol(texts(module@), optional(container), name@),
{
    SymbolId {
        language: LanguageId::new("ocaml"),
        module: copy_texts(module),
        container,
        name: name.to_owned(),
    }
}

/// The pattern and the type of a parameter.
pub open spec fn pattern_and_type(rows: Seq<RowModel>, parameter: int) -> (
    Option<int>,
    Option<int>,
) {
    match child_by_field(rows, parameter, "pattern"@) {
        Some(pattern) if rows[pattern].kind == "typed_pattern"@ => (
            child_by_field(rows, pattern, "pattern"@),
            child_by_field(rows, pattern, "type"@),
        ),
        pattern => (pattern, child_by_field(rows, parameter, "type"@)),
    }
}

/// The pattern and the type of a parameter.
pub fn parameter_pattern_and_type(rows: &Vec<SyntaxRow>, parameter: usize) -> (result: (
    Option<usize>,
    Option<usize>,
))
    requires
        parameter < rows@.len(),
    ensures
        (optional_node(result.0), optional_node(result.1)) == pattern_and_type(
            views(rows@),
            parameter as int,
        ),
        result.0 is Some ==> result.0->0 < rows@.len(),
        result.1 is Some ==> result.1->0 < rows@.len(),
{
    match child_by_field_name(rows, parameter, "pattern") {
        Some(pattern) => {
            if is_kind(rows, pattern, "typed_pattern") {
                (
                    child_by_field_name(rows, pattern, "pattern"),
                    child_by_field_name(rows, pattern, "type"),
                )
            } else {
                (Some(pattern), child_by_field_name(rows, parameter, "type"))
            }
        },
        None => (None, child_by_field_name(rows, parameter, "type")),
    }
}

/// The mark of a labeled parameter.
pub open spec fn label_mark(text: Seq<char>) -> Seq<char> {
    let rest = trimmed_start(text);
    if rest.len() > 0 && rest[0] == '?' {
        "?"@
    } else {
        "~"@
    }
}

fn find_label_mark(text: &str) -> (result: String)
    ensures
        result@ == label_mark(text@),
{
    let rest = chars_of(trim_start_text(text).as_str());
    if rest.len() > 0 && rest[0] == '?' {
        "?".to_owned()
    } else {
        "~".to_owned()
    }
}

/// The text of the pattern of a parameter.
pub open spec fn pattern_text(rows: Seq<RowModel>, pattern: Option<int>) -> Seq<char> {
    match pattern {
        Some(pattern) => plain_text(rows, pattern),
        None => "_"@,
    }
}

fn find_pattern_text(rows: &Vec<SyntaxRow>, pattern: Option<usize>) -> (result: String)
    requires
        pattern is Some ==> pattern->0 < rows@.len(),
    ensures
        result@ == pattern_text(views(rows@), optional_node(pattern)),
{
    match pattern {
        Some(pattern) => plain_node_text(rows, pattern),
        None => "_".to_owned(),
    }
}

/// How a parameter is shown, without its type.
pub open spec fn default_label(rows: Seq<RowModel>, parameter: int) -> Seq<char> {
    let (pattern, ty) = pattern_and_type(rows, parameter);
    if ty is None {
        plain_text(rows, parameter)
    } else {
        let shown = pattern_text(rows, pattern);
        match child_of_kind(rows, parameter, "label_name"@) {
            None => shown,
            Some(label) => {
                let marked = label_mark(rows[parameter].text) + plain_text(rows, label);
                if shown == plain_text(rows, label) {
                    marked
                } else {
                    marked + ":"@ + shown
                }
            },
        }
    }
}

/// How a parameter is shown, without its type.
pub fn parameter_default_label(rows: &Vec<SyntaxRow>, parameter: usize) -> (result: String)
    requires
        parameter < rows@.len(),
    ensures
        result@ == default_label(views(rows@), parameter as int),
{
    let (pattern, ty) = parameter_pattern_and_type(rows, parameter);
    if ty.is_none() {
        return plain_node_text(rows, parameter);
    }
    let shown = find_pattern_text(rows, pattern);
    match direct_named_child(rows, parameter, "label_name") {
        None => shown,
        Some(label) => {
            proof {
                assert(views(rows@)[parameter as int] == rows@[parameter as int]@);
            }
            let name = plain_node_text(rows, label);
            let mut result = concat_texts(
                find_label_mark(rows[parameter].text.as_str()).as_str(),
                name.as_str(),
            );
            if !same_text(shown.as_str(), name.as_str()) {
                result.append(":");
                result.append(shown.as_str());
            }
            result
        },
    }
}

/// How a parameter is shown with its type, and whether it has one.
pub open spec fn typed_label(rows: Seq<RowModel>, parameter: int) -> (Seq<char>, bool) {
    let (pattern, ty) = pattern_and_type(rows, parameter);
    match ty {
        None => (default_label(rows, parameter), false),
        Some(ty) => {
            let annotated = "("@ + pattern_text(rows, pattern) + " : "@ + plain_text(rows, ty)
                + ")"@;
            match child_of_kind(rows, parameter, "label_name"@) {
                None => (annotated, true),
                Some(label) => (
                    label_mark(rows[parameter].text) + plain_text(rows, label) + ":"@ + annotated,
                    true,
                ),
            }
        },
    }
}

/// How a parameter is shown with its type, and whether it has one.
pub fn parameter_typed_label(rows: &Vec<SyntaxRow>, parameter: usize) -> (result: (String, bool))
    requires
        parameter < rows@.len(),
    ensures
        (result.0@, result.1) == typed_label(views(rows@), parameter as int),
{
    let (pattern, ty) = parameter_pattern_and_type(rows, parameter);
    match ty {
        None => (parameter_default_label(rows, parameter), false),
        Some(ty) => {
            let mut annotated = concat_texts("(", find_pattern_text(rows, pattern).as_str());
            annotated.append(" : ");
            annotated.append(plain_node_text(rows, ty).as_str());
            annotated.append(")");
            match direct_named_child(rows, parameter, "label_name") {
                None => (annotated, true),
                Some(label) => {
                    proof {
                        assert(views(rows@)[parameter as int] == rows@[parameter as int]@);
                    }
                    let mut result = concat_texts(
                        find_label_mark(rows[parameter].text.as_str()).as_str(),
                        plain_node_text(rows, label).as_str(),
                    );
                    result.append(":");
                    result.append(annotated.as_str());
                    (result, true)
                },
            }
        },
    }
}

/// How each parameter is shown, without types.
pub open spec fn parameter_labels(rows: Seq<RowModel>, parameters: Seq<int>) -> Seq<Seq<char>> {
    parameters.map_values(
        |parameter: int|
            if rows[parameter].kind == "function_expression"@ {
                "_"@
            } else {
                default_label(rows, parameter)
            },
    )
}

/// How each parameter is shown, with its type.
pub open spec fn typed_labels(rows: Seq<RowModel>, parameters: Seq<int>) -> Seq<Seq<char>> {
    parameters.map_values(
        |parameter: int|
            if rows[parameter].kind == "function_expression"@ {
                "_"@
            } else {
                typed_label(rows, parameter).0
            },
    )
}

/// Whether one of the parameters has a type.
pub open spec fn some_typed(rows: Seq<RowModel>, parameters: Seq<int>) -> bool {
    exists|index: int|
        0 <= index < parameters.len() && rows[#[trigger] parameters[index]].kind
            != "function_expression"@ && typed_label(rows, parameters[index]).1
}

pub(crate) fn label_parameters(rows: &Vec<SyntaxRow>, parameters: &Vec<usize>) -> (result: Vec<String>)
    requires
        forall|index: int|
            0 <= index < parameters@.len() ==> #[trigger] parameters@[index] < rows@.len(),
    ensures
        texts(result@) == parameter_labels(views(rows@), node_list(parameters@)),
{
    let mut result: Vec<String> = Vec::new();
    let mut index: usize = 0;
    while index < parameters.len()
        invariant
            index <= parameters@.len(),
            forall|k: int|
                0 <= k < parameters@.len() ==> #[trigger] parameters@[k] < rows@.len(),
            result@.len() == index,
            forall|k: int|
                0 <= k < index ==> (#[trigger] result@[k])@ == parameter_labels(
                    views(rows@),
                    node_list(parameters@),
                )[k],
        decreases parameters@.len() - index,
    {
        let parameter: usize = parameters[index];
        proof {
            assert(node_list(parameters@)[index as int] == parameter);
        }
        if is_kind(rows, parameter, "function_expression") {
            result.push("_".to_owned());
        } else {
            result.push(parameter_default_label(rows, parameter));
        }
        index += 1;
    }
    proof {
        assert(texts(result@) =~= parameter_labels(views(rows@), node_list(parameters@)));
    }
    result
}

pub(crate) fn label_typed_parameters(rows: &Vec<SyntaxRow>, parameters: &Vec<usize>) -> (result: (
    Vec<String>,
    bool,
))
    requires
        forall|index: int|
            0 <= index < parameters@.len() ==> #[trigger] parameters@[index] < rows@.len(),
    ensures
        texts(result.0@) == typed_labels(views(rows@), node_list(parameters@)),
        result.1 == some_typed(views(rows@), node_list(parameters@)),
{
    let mut result: Vec<String> = Vec::new();
    let mut found = false;
    let mut index: usize = 0;
    let ghost nodes = node_list(parameters@);
    proof {
        assert(nodes.len() == parameters@.len());
    }
    while index < parameters.len()
        invariant
            index <= parameters@.len(),
            nodes == node_list(parameters@),
            forall|k: int|
                0 <= k < parameters@.len() ==> #[trigger] parameters@[k] < rows@.len(),
            result@.len() == index,
            forall|k: int|
                0 <= k < index ==> (#[trigger] result@[k])@ == typed_labels(
                    views(rows@),
                    nodes,
                )[k],
            found == exists|k: int|
                0 <= k < index && views(rows@)[#[trigger] nodes[k]].kind
                    != "function_expression"@ && typed_label(views(rows@), nodes[k]).1,
        decreases parameters@.len() - index,
    {
        let parameter: usize = parameters[index];
        proof {
            assert(nodes[index as int] == parameter);
        }
        if is_kind(rows, parameter, "function_expression") {
            result.push("_".to_owned());
        } else {
            let (label, typed) = parameter_typed_label(rows, parameter);
            result.push(label);
            if typed {
                found = true;
            }
        }
        index += 1;
    }
    proof {
        assert(texts(result@) =~= typed_labels(views(rows@), nodes));
    }
    (result, found)
}

/// The type of a parameter, as it is written.
pub open spec fn type_text(rows: Seq<RowModel>, parameter: int) -> Seq<char> {
    match pattern_and_type(rows, parameter).1 {
        Some(ty) => plain_text(rows, ty),
        None => Seq::empty(),
    }
}

/// The facts on the first `count` parameters.
pub open spec fn parameter_facts(
    rows: Seq<RowModel>,
    file: Seq<char>,
    id: SymbolModel,
    parameters: Seq<int>,
    count: int,
) -> Seq<FactModel>
    decreases count,
{
    if count <= 0 {
        Seq::empty()
    } else {
        let before = parameter_facts(rows, file, id, parameters, count - 1);
        let parameter = parameters[count - 1];
        if rows[parameter].kind == "function_expression"@ {
            before
        } else {
            before.push(
                ocaml_fact(
                    id,
                    "parameter"@,
                    default_label(rows, parameter),
                    type_text(rows, parameter),
                    span_of(file, rows[parameter]),
                ),
            )
        }
    }
}

pub(crate) fn push_fact(facts: &mut Vec<LanguageFact>, fact: LanguageFact)
    ensures
        views(final(facts)@) == views(old(facts)@).push(fact@),
{
    let ghost before = views(facts@);
    let ghost model = fact@;
    facts.push(fact);
    proof {
        assert(views(facts@) =~= before.push(model));
    }
}

pub(crate) fn no_facts() -> (result: Vec<LanguageFact>)
    ensures
        views(result@) == Seq::<FactModel>::empty(),
{
    let result: Vec<LanguageFact> = Vec::new();
    proof {
        assert(views(result@) =~= Seq::empty());
    }
    result
}

pub(crate) fn append_facts(facts: &mut Vec<LanguageFact>, mut more: Vec<LanguageFact>)
    ensures
        views(final(facts)@) == views(old(facts)@) + views(more@),
{
    let ghost before = views(facts@);
    let ghost added = views(more@);
    facts.append(&mut more);
    proof {
        assert(views(facts@) =~= before + added);
    }
}

pub(crate) fn make_parameter_facts(
    rows: &Vec<SyntaxRow>,
    file: &SourcePath,
    id: &SymbolId,
    parameters: &Vec<usize>,
) -> (result: Vec<LanguageFact>)
    requires
        forall|index: int|
            0 <= index < parameters@.len() ==> #[trigger] parameters@[index] < rows@.len(),
    ensures
        views(result@) == parameter_facts(
            views(rows@),
            file@,
            id@,
            node_list(parameters@),
            parameters@.len() as int,
        ),
{
    let mut result = no_facts();
    let mut index: usize = 0;
    let ghost nodes = node_list(parameters@);
    while index < parameters.len()
        invariant
            index <= parameters@.len(),
            nodes == node_list(parameters@),
            forall|k: int|
                0 <= k < parameters@.len() ==> #[trigger] parameters@[k] < rows@.len(),
            views(result@) == parameter_facts(views(rows@), file@, id@, nodes, index as int),
        decreases parameters@.len() - index,
    {
        let parameter: usize = parameters[index];
        proof {
            assert(nodes[index as int] == parameter);
            assert(views(rows@)[parameter as int] == rows@[parameter as int]@);
        }
        if !is_kind(rows, parameter, "function_expression") {
            let (_, ty) = parameter_pattern_and_type(rows, parameter);
            let value = match ty {
                Some(ty) => plain_node_text(rows, ty),
                None => String::new(),
            };
            proof {
                if ty is None {
                    assert(value@ =~= Seq::empty());
                }
            }
            push_fact(
                &mut result,
                make_fact(
                    id,
                    "parameter",
                    parameter_default_label(rows, parameter).as_str(),
                    value.as_str(),
                    tree_sitter_span(file, &rows[parameter]),
                ),
            );
        }
        index += 1;
    }
    result
}

/// The facts on the first `count` values that a function can return.
pub open spec fn return_facts(
    id: SymbolModel,
    names: Seq<Seq<char>>,
    span: SpanModel,
    count: int,
) -> Seq<FactModel>
    decreases count,
{
    if count <= 0 {
        Seq::empty()
    } else {
        return_facts(id, names, span, count - 1).push(
            ocaml_fact(
                id,
                "callable-return"@,
                decimal((count - 1) as nat),
                names[count - 1],
                span,
            ),
        )
    }
}

pub(crate) fn make_return_facts(
    rows: &Vec<SyntaxRow>,
    file: &SourcePath,
    id: &SymbolId,
    body: usize,
) -> (result: Vec<LanguageFact>)
    requires
        body < rows@.len(),
    ensures
        views(result@) == ({
            let names = outcomes(views(rows@), body as int, Seq::empty());
            return_facts(
                id@,
                names,
                span_of(file@, views(rows@)[body as int]),
                names.len() as int,
            )
        }),
{
    let mut names: Vec<String> = Vec::new();
    proof {
        assert(texts(names@) =~= Seq::empty());
        assert(views(rows@)[body as int] == rows@[body as int]@);
    }
    collect_ocaml_callable_outcomes(rows, body, &mut names);
    let mut result = no_facts();
    let mut index: usize = 0;
    let ghost all = texts(names@);
    let ghost span = span_of(file@, rows@[body as int]@);
    proof {
        assert(all.len() == names@.len());
    }
    while index < names.len()
        invariant
            index <= names@.len(),
            body < rows@.len(),
            all == texts(names@),
            span == span_of(file@, rows@[body as int]@),
            views(result@) == return_facts(id@, all, span, index as int),
        decreases names@.len() - index,
    {
        proof {
            assert(all[index as int] == names@[index as int]@);
        }
        push_fact(
            &mut result,
            make_fact(
                id,
                "callable-return",
                decimal_text(index).as_str(),
                names[index].as_str(),
                tree_sitter_span(file, &rows[body]),
            ),
        );
        index += 1;
    }
    result
}

/// The bindings in the definitions of a `let` expression, among the first
/// `count` definitions.
pub open spec fn bindings_in(rows: Seq<RowModel>, definitions: Seq<int>, count: int) -> Seq<int>
    decreases count,
{
    if count <= 0 {
        Seq::empty()
    } else {
        bindings_in(rows, definitions, count - 1) + children_of_kind(
            rows,
            definitions[count - 1],
            "let_binding"@,
        )
    }
}

/// The bindings of a `let` expression.
pub open spec fn let_bindings(rows: Seq<RowModel>, node: int) -> Seq<int> {
    let definitions = children_of_kind(rows, node, "value_definition"@);
    bindings_in(rows, definitions, definitions.len() as int)
}

fn find_let_bindings(rows: &Vec<SyntaxRow>, node: usize) -> (result: Vec<usize>)
    requires
        node < rows@.len(),
    ensures
        node_list(result@) == let_bindings(views(rows@), node as int),
        forall|place: int|
            0 <= place < result@.len() ==> node < #[trigger] result@[place] < rows@.len(),
{
    let definitions = direct_named_children(rows, node, "value_definition");
    let ghost nodes = node_list(definitions@);
    let mut result: Vec<usize> = Vec::new();
    let mut index: usize = 0;
    proof {
        assert(node_list(result@) =~= Seq::empty());
        assert(nodes.len() == definitions@.len());
    }
    while index < definitions.len()
        invariant
            index <= definitions@.len(),
            nodes == node_list(definitions@),
            forall|k: int|
                0 <= k < definitions@.len() ==> node < #[trigger] definitions@[k] < rows@.len(),
            node_list(result@) == bindings_in(views(rows@), nodes, index as int),
            forall|k: int| 0 <= k < result@.len() ==> node < #[trigger] result@[k] < rows@.len(),
        decreases definitions@.len() - index,
    {
        let definition: usize = definitions[index];
        proof {
            assert(nodes[index as int] == definition);
        }
        let mut more = direct_named_children(rows, definition, "let_binding");
        let ghost before = node_list(result@);
        let ghost old_result = result@;
        let ghost added = more@;
        result.append(&mut more);
        proof {
            assert(node_list(result@) =~= before + node_list(added));
            assert forall|k: int| 0 <= k < result@.len() implies node < #[trigger] result@[k]
                < rows@.len() by {
                if k < old_result.len() {
                    assert(result@[k] == old_result[k]);
                } else {
                    assert(result@[k] == added[k - old_result.len()]);
                }
            }
        }
        index += 1;
    }
    result
}

/// The facts on the values that the first `count` names of a pattern stand
/// for.
pub open spec fn value_facts(
    owner: SymbolModel,
    names: Seq<BindingModel>,
    body: Seq<char>,
    scope: SpanModel,
    count: int,
) -> Seq<FactModel>
    decreases count,
{
    if count <= 0 {
        Seq::empty()
    } else {
        let before = value_facts(owner, names, body, scope, count - 1);
        let name = names[count - 1];
        match projected(body, name.projection) {
            Some(value) => if name.kind is Value {
                before.push(ocaml_fact(owner, "local-value"@, name.name, value, scope))
            } else {
                before
            },
            None => before,
        }
    }
}

/// The facts on the values that a binding gives names to.
pub open spec fn binding_value_facts(
    rows: Seq<RowModel>,
    owner: SymbolModel,
    binding: int,
    scope: SpanModel,
) -> Seq<FactModel> {
    match child_by_field(rows, binding, "body"@) {
        None => Seq::empty(),
        Some(body) => if children_of_kind(rows, binding, "parameter"@).len() > 0
            || is_function_node(rows, body) {
            Seq::empty()
        } else {
            match child_by_field(rows, binding, "pattern"@) {
                None => Seq::empty(),
                Some(pattern) => {
                    let names = bindings_of(rows[pattern].text, 0, Seq::empty());
                    value_facts(owner, names, rows[body].text, scope, names.len() as int)
                },
            }
        },
    }
}

/// The facts on the values that the first `count` bindings give names to.
pub open spec fn bindings_value_facts(
    rows: Seq<RowModel>,
    owner: SymbolModel,
    bindings: Seq<int>,
    scope: SpanModel,
    count: int,
) -> Seq<FactModel>
    decreases count,
{
    if count <= 0 {
        Seq::empty()
    } else {
        bindings_value_facts(rows, owner, bindings, scope, count - 1) + binding_value_facts(
            rows,
            owner,
            bindings[count - 1],
            scope,
        )
    }
}

/// Where the names of a `let` expression are bound.
pub open spec fn let_scope(rows: Seq<RowModel>, file: Seq<char>, node: int) -> SpanModel {
    match child_by_field(rows, node, "body"@) {
        Some(body) => span_of(file, rows[body]),
        None => span_of(file, rows[node]),
    }
}

fn empty_projection() -> (result: Vec<OcamlProjection>)
    ensures
        views(result@) == Seq::<StepModel>::empty(),
{
    let result: Vec<OcamlProjection> = Vec::new();
    proof {
        assert(views(result@) =~= Seq::empty());
    }
    result
}

fn make_value_facts(
    owner: &SymbolId,
    names: &Vec<OcamlParameterBinding>,
    body: &str,
    scope: &SourceSpan,
) -> (result: Vec<LanguageFact>)
    ensures
        views(result@) == value_facts(
            owner@,
            views(names@),
            body@,
            scope@,
            names@.len() as int,
        ),
{
    let mut result = no_facts();
    let mut index: usize = 0;
    while index < names.len()
        invariant
            index <= names@.len(),
            views(result@) == value_facts(
                owner@,
                views(names@),
                body@,
                scope@,
                index as int,
            ),
        decreases names@.len() - index,
    {
        let name = &names[index];
        proof {
            assert(views(names@)[index as int] == name@);
        }
        if name.kind == OcamlParameterKind::Value {
            match project_ocaml_argument(body, &name.projection) {
                Some(value) => {
                    push_fact(
                        &mut result,
                        make_fact(
                            owner,
                            "local-value",
                            name.name.as_str(),
                            value.as_str(),
                            scope.clone(),
                        ),
                    );
                },
                None => {},
            }
        }
        index += 1;
    }
    result
}

fn make_binding_value_facts(
    rows: &Vec<SyntaxRow>,
    owner: &SymbolId,
    binding: usize,
    scope: &SourceSpan,
) -> (result: Vec<LanguageFact>)
    requires
        binding < rows@.len(),
    ensures
        views(result@) == binding_value_facts(views(rows@), owner@, binding as int, scope@),
{
    let body = match child_by_field_name(rows, binding, "body") {
        Some(body) => body,
        None => {
            return no_facts();
        },
    };
    let parameters = direct_named_children(rows, binding, "parameter");
    proof {
        assert(node_list(parameters@).len() == parameters@.len());
        assert(views(rows@)[body as int] == rows@[body as int]@);
    }
    if parameters.len() > 0 || is_function_expression(rows, body) {
        return no_facts();
    }
    match child_by_field_name(rows, binding, "pattern") {
        None => no_facts(),
        Some(pattern) => {
            proof {
                assert(views(rows@)[pattern as int] == rows@[pattern as int]@);
            }
            let names = collect_ocaml_parameter_bindings(
                rows[pattern].text.as_str(),
                0,
                &empty_projection(),
            );
            proof {
                assert(views(names@).len() == names@.len());
            }
            make_value_facts(owner, &names, rows[body].text.as_str(), scope)
        },
    }
}

fn make_let_value_facts(
    rows: &Vec<SyntaxRow>,
    file: &SourcePath,
    owner: &SymbolId,
    node: usize,
) -> (result: Vec<LanguageFact>)
    requires
        node < rows@.len(),
    ensures
        views(result@) == ({
            let bindings = let_bindings(views(rows@), node as int);
            bindings_value_facts(
                views(rows@),
                owner@,
                bindings,
                let_scope(views(rows@), file@, node as int),
                bindings.len() as int,
            )
        }),
{
    let bindings = find_let_bindings(rows, node);
    let scope_node: usize = match child_by_field_name(rows, node, "body") {
        Some(body) => body,
        None => node,
    };
    proof {
        assert(views(rows@)[scope_node as int] == rows@[scope_node as int]@);
    }
    let scope = tree_sitter_span(file, &rows[scope_node]);
    let ghost nodes = node_list(bindings@);
    let mut result = no_facts();
    let mut index: usize = 0;
    proof {
        assert(nodes.len() == bindings@.len());
    }
    while index < bindings.len()
        invariant
            index <= bindings@.len(),
            nodes == node_list(bindings@),
            forall|k: int|
                0 <= k < bindings@.len() ==> node < #[trigger] bindings@[k] < rows@.len(),
            views(result@) == bindings_value_facts(
                views(rows@),
                owner@,
                nodes,
                scope@,
                index as int,
            ),
        decreases bindings@.len() - index,
    {
        proof {
            assert(nodes[index as int] == bindings@[index as int]);
        }
        let more = make_binding_value_facts(rows, owner, bindings[index], &scope);
        append_facts(&mut result, more);
        index += 1;
    }
    result
}

/// The facts on local values in the children from `at` up to `end`.
pub open spec fn local_values_among(
    rows: Seq<RowModel>,
    file: Seq<char>,
    owner: SymbolModel,
    at: int,
    end: int,
) -> Seq<FactModel>
    decreases rows.len() - at, 1int,
{
    if at < 0 || at >= end || at >= rows.len() {
        Seq::empty()
    } else {
        proof {
            ends_are_behind(rows, at);
        }
        let rest = local_values_among(rows, file, owner, end_of(rows, at), end);
        if rows[at].named && !is_function_node(rows, at) {
            local_values(rows, file, owner, at) + rest
        } else {
            rest
        }
    }
}

/// The facts on local values in a body; local functions have their own.
pub open spec fn local_values(
    rows: Seq<RowModel>,
    file: Seq<char>,
    owner: SymbolModel,
    node: int,
) -> Seq<FactModel>
    decreases rows.len() - node, 0int,
    when 0 <= node < rows.len()
{
    let below = local_values_among(rows, file, owner, node + 1, end_of(rows, node));
    if rows[node].kind == "let_expression"@ {
        let bindings = let_bindings(rows, node);
        bindings_value_facts(
            rows,
            owner,
            bindings,
            let_scope(rows, file, node),
            bindings.len() as int,
        ) + below
    } else {
        below
    }
}

/// Finds the facts on local values in a body.
pub fn collect_ocaml_local_value_facts(
    rows: &Vec<SyntaxRow>,
    file: &SourcePath,
    owner: &SymbolId,
    node: usize,
) -> (result: Vec<LanguageFact>)
    requires
        node < rows@.len(),
    ensures
        views(result@) == local_values(views(rows@), file@, owner@, node as int),
    decreases rows@.len() - node,
{
    let ghost model = views(rows@);
    let mut result = if is_kind(rows, node, "let_expression") {
        make_let_value_facts(rows, file, owner, node)
    } else {
        no_facts()
    };
    let end: usize = find_end(rows, node);
    let mut at: usize = node + 1;
    let ghost whole = views(result@) + local_values_among(
        model,
        file@,
        owner@,
        node + 1,
        end as int,
    );
    while at < end
        invariant
            node < at <= rows@.len(),
            end <= rows@.len(),
            model == views(rows@),
            views(result@) + local_values_among(model, file@, owner@, at as int, end as int)
                == whole,
        decreases rows@.len() - at,
    {
        let ghost before = views(result@);
        let next: usize = find_end(rows, at);
        proof {
            assert(model[at as int] == rows@[at as int]@);
        }
        if rows[at].named && !is_function_expression(rows, at) {
            let more = collect_ocaml_local_value_facts(rows, file, owner, at);
            let ghost added = views(more@);
            append_facts(&mut result, more);
            proof {
                let rest = local_values_among(model, file@, owner@, next as int, end as int);
                assert(before + (added + rest) =~= (before + added) + rest);
            }
        }
        at = next;
    }
    proof {
        assert(views(result@) + Seq::<FactModel>::empty() =~= views(result@));
        if model[node as int].kind != "let_expression"@ {
            let below = local_values_among(model, file@, owner@, node + 1, end as int);
            assert(Seq::<FactModel>::empty() + below =~= below);
        }
    }
    result
}

/// The facts on the first `count` names of a pattern that a parameter is taken
/// apart with.
pub open spec fn refinements(
    owner: SymbolModel,
    source: Seq<char>,
    pattern: Seq<char>,
    scope: SpanModel,
    names: Seq<BindingModel>,
    count: int,
) -> Seq<FactModel>
    decreases count,
{
    if count <= 0 {
        Seq::empty()
    } else {
        let before = refinements(owner, source, pattern, scope, names, count - 1);
        if names[count - 1].kind is Value {
            before.push(
                ocaml_fact(
                    owner,
                    "parameter-refinement"@,
                    names[count - 1].name,
                    source + "\n"@ + normal(pattern),
                    scope,
                ),
            )
        } else {
            before
        }
    }
}

/// The facts on the names of a pattern that a parameter is taken apart with.
pub open spec fn refinement_facts(
    owner: SymbolModel,
    source: Seq<char>,
    pattern: Seq<char>,
    scope: SpanModel,
) -> Seq<FactModel> {
    let names = bindings_of(pattern, 0, Seq::empty());
    refinements(owner, source, pattern, scope, names, names.len() as int)
}

/// The facts on the names of a pattern that a parameter is taken apart with.
pub fn push_ocaml_parameter_refinements(
    owner: &SymbolId,
    source: &str,
    pattern: &str,
    scope: &SourceSpan,
) -> (result: Vec<LanguageFact>)
    ensures
        views(result@) == refinement_facts(owner@, source@, pattern@, scope@),
{
    let names = collect_ocaml_parameter_bindings(pattern, 0, &empty_projection());
    let mut value = concat_texts(source, "\n");
    value.append(normalize_source(pattern).as_str());
    let mut result = no_facts();
    let mut index: usize = 0;
    proof {
        assert(views(names@).len() == names@.len());
    }
    while index < names.len()
        invariant
            index <= names@.len(),
            value@ == source@ + "\n"@ + normal(pattern@),
            views(result@) == refinements(
                owner@,
                source@,
                pattern@,
                scope@,
                views(names@),
                index as int,
            ),
        decreases names@.len() - index,
    {
        let name = &names[index];
        proof {
            assert(views(names@)[index as int] == name@);
        }
        if name.kind == OcamlParameterKind::Value {
            push_fact(
                &mut result,
                make_fact(
                    owner,
                    "parameter-refinement",
                    name.name.as_str(),
                    value.as_str(),
                    scope.clone(),
                ),
            );
        }
        index += 1;
    }
    result
}

/// The facts on the first `count` cases that take a parameter apart.
pub open spec fn case_refinements(
    rows: Seq<RowModel>,
    file: Seq<char>,
    owner: SymbolModel,
    source: Seq<char>,
    cases: Seq<int>,
    count: int,
) -> Seq<FactModel>
    decreases count,
{
    if count <= 0 {
        Seq::empty()
    } else {
        let before = case_refinements(rows, file, owner, source, cases, count - 1);
        let case = cases[count - 1];
        match child_by_field(rows, case, "pattern"@) {
            Some(pattern) => match child_by_field(rows, case, "body"@) {
                Some(body) => before + refinement_facts(
                    owner,
                    source,
                    rows[pattern].text,
                    span_of(file, rows[body]),
                ),
                None => before,
            },
            None => before,
        }
    }
}

/// The facts on the first `count` bindings that take a parameter apart.
pub open spec fn let_refinements(
    rows: Seq<RowModel>,
    owner: SymbolModel,
    scope: SpanModel,
    bindings: Seq<int>,
    count: int,
) -> Seq<FactModel>
    decreases count,
{
    if count <= 0 {
        Seq::empty()
    } else {
        let before = let_refinements(rows, owner, scope, bindings, count - 1);
        let binding = bindings[count - 1];
        match child_by_field(rows, binding, "pattern"@) {
            Some(pattern) => match child_by_field(rows, binding, "body"@) {
                Some(body) => if is_identifier(plain_text(rows, body)) {
                    before + refinement_facts(
                        owner,
                        plain_text(rows, body),
                        rows[pattern].text,
                        scope,
                    )
                } else {
                    before
                },
                None => before,
            },
            None => before,
        }
    }
}

/// The facts on parameters that a node takes apart.
pub open spec fn node_refinements(
    rows: Seq<RowModel>,
    file: Seq<char>,
    owner: SymbolModel,
    node: int,
) -> Seq<FactModel> {
    if rows[node].kind == "match_expression"@ {
        match child_by_field(rows, node, "expression"@) {
            Some(scrutinee) => if is_identifier(plain_text(rows, scrutinee)) {
                let cases = children_of_kind(rows, node, "match_case"@);
                case_refinements(
                    rows,
                    file,
                    owner,
                    plain_text(rows, scrutinee),
                    cases,
                    cases.len() as int,
                )
            } else {
                Seq::empty()
            },
            None => Seq::empty(),
        }
    } else if rows[node].kind == "let_expression"@ {
        match child_by_field(rows, node, "body"@) {
            Some(scope) => {
                let bindings = let_bindings(rows, node);
                let_refinements(
                    rows,
                    owner,
                    span_of(file, rows[scope]),
                    bindings,
                    bindings.len() as int,
                )
            },
            None => Seq::empty(),
        }
    } else {
        Seq::empty()
    }
}

fn make_case_refinements(
    rows: &Vec<SyntaxRow>,
    file: &SourcePath,
    owner: &SymbolId,
    source: &str,
    cases: &Vec<usize>,
) -> (result: Vec<LanguageFact>)
    requires
        forall|k: int| 0 <= k < cases@.len() ==> #[trigger] cases@[k] < rows@.len(),
    ensures
        views(result@) == case_refinements(
            views(rows@),
            file@,
            owner@,
            source@,
            node_list(cases@),
            cases@.len() as int,
        ),
{
    let ghost nodes = node_list(cases@);
    let mut result = no_facts();
    let mut index: usize = 0;
    while index < cases.len()
        invariant
            index <= cases@.len(),
            nodes == node_list(cases@),
            forall|k: int| 0 <= k < cases@.len() ==> #[trigger] cases@[k] < rows@.len(),
            views(result@) == case_refinements(
                views(rows@),
                file@,
                owner@,
                source@,
                nodes,
                index as int,
            ),
        decreases cases@.len() - index,
    {
        let case: usize = cases[index];
        proof {
            assert(nodes[index as int] == case);
        }
        match child_by_field_name(rows, case, "pattern") {
            Some(pattern) => {
                match child_by_field_name(rows, case, "body") {
                    Some(body) => {
                        proof {
                            assert(views(rows@)[pattern as int] == rows@[pattern as int]@);
                            assert(views(rows@)[body as int] == rows@[body as int]@);
                        }
                        let more = push_ocaml_parameter_refinements(
                            owner,
                            source,
                            rows[pattern].text.as_str(),
                            &tree_sitter_span(file, &rows[body]),
                        );
                        append_facts(&mut result, more);
                    },
                    None => {},
                }
            },
            None => {},
        }
        index += 1;
    }
    result
}

fn make_let_refinements(
    rows: &Vec<SyntaxRow>,
    owner: &SymbolId,
    scope: &SourceSpan,
    bindings: &Vec<usize>,
) -> (result: Vec<LanguageFact>)
    requires
        forall|k: int| 0 <= k < bindings@.len() ==> #[trigger] bindings@[k] < rows@.len(),
    ensures
        views(result@) == let_refinements(
            views(rows@),
            owner@,
            scope@,
            node_list(bindings@),
            bindings@.len() as int,
        ),
{
    let ghost nodes = node_list(bindings@);
    let mut result = no_facts();
    let mut index: usize = 0;
    while index < bindings.len()
        invariant
            index <= bindings@.len(),
            nodes == node_list(bindings@),
            forall|k: int| 0 <= k < bindings@.len() ==> #[trigger] bindings@[k] < rows@.len(),
            views(result@) == let_refinements(
                views(rows@),
                owner@,
                scope@,
                nodes,
                index as int,
            ),
        decreases bindings@.len() - index,
    {
        let binding: usize = bindings[index];
        proof {
            assert(nodes[index as int] == binding);
        }
        match child_by_field_name(rows, binding, "pattern") {
            Some(pattern) => {
                match child_by_field_name(rows, binding, "body") {
                    Some(body) => {
                        proof {
                            assert(views(rows@)[pattern as int] == rows@[pattern as int]@);
                        }
                        let value = plain_node_text(rows, body);
                        if is_value_identifier(value.as_str()) {
                            let more = push_ocaml_parameter_refinements(
                                owner,
                                value.as_str(),
                                rows[pattern].text.as_str(),
                                scope,
                            );
                            append_facts(&mut result, more);
                        }
                    },
                    None => {},
                }
            },
            None => {},
        }
        index += 1;
    }
    result
}

fn make_node_refinements(
    rows: &Vec<SyntaxRow>,
    file: &SourcePath,
    owner: &SymbolId,
    node: usize,
) -> (result: Vec<LanguageFact>)
    requires
        node < rows@.len(),
    ensures
        views(result@) == node_refinements(views(rows@), file@, owner@, node as int),
{
    if is_kind(rows, node, "match_expression") {
        match child_by_field_name(rows, node, "expression") {
            Some(scrutinee) => {
                let source = plain_node_text(rows, scrutinee);
                if is_value_identifier(source.as_str()) {
                    let cases = direct_named_children(rows, node, "match_case");
                    proof {
                        assert(node_list(cases@).len() == cases@.len());
                    }
                    return make_case_refinements(rows, file, owner, source.as_str(), &cases);
                }
            },
            None => {},
        }
        return no_facts();
    }
    if is_kind(rows, node, "let_expression") {
        match child_by_field_name(rows, node, "body") {
            Some(scope) => {
                proof {
                    assert(views(rows@)[scope as int] == rows@[scope as int]@);
                }
                let bindings = find_let_bindings(rows, node);
                proof {
                    assert(node_list(bindings@).len() == bindings@.len());
                }
                return make_let_refinements(
                    rows,
                    owner,
                    &tree_sitter_span(file, &rows[scope]),
                    &bindings,
                );
            },
            None => {},
        }
    }
    no_facts()
}

/// The facts on parameters that are taken apart in the children from `at` up
/// to `end`.
pub open spec fn refinements_among(
    rows: Seq<RowModel>,
    file: Seq<char>,
    owner: SymbolModel,
    at: int,
    end: int,
) -> Seq<FactModel>
    decreases rows.len() - at, 1int,
{
    if at < 0 || at >= end || at >= rows.len() {
        Seq::empty()
    } else {
        proof {
            ends_are_behind(rows, at);
        }
        let rest = refinements_among(rows, file, owner, end_of(rows, at), end);
        if rows[at].named && !is_function_node(rows, at) {
            refinements_in(rows, file, owner, at) + rest
        } else {
            rest
        }
    }
}

/// The facts on parameters that are taken apart in a body; local functions
/// have their own.
pub open spec fn refinements_in(
    rows: Seq<RowModel>,
    file: Seq<char>,
    owner: SymbolModel,
    node: int,
) -> Seq<FactModel>
    decreases rows.len() - node, 0int,
    when 0 <= node < rows.len()
{
    if binds_function(rows, node) {
        Seq::empty()
    } else {
        node_refinements(rows, file, owner, node) + refinements_among(
            rows,
            file,
            owner,
            node + 1,
            end_of(rows, node),
        )
    }
}

/// Finds the facts on parameters that are taken apart in a body.
pub fn collect_ocaml_parameter_refinement_facts(
    rows: &Vec<SyntaxRow>,
    file: &SourcePath,
    owner: &SymbolId,
    node: usize,
) -> (result: Vec<LanguageFact>)
    requires
        node < rows@.len(),
    ensures
        views(result@) == refinements_in(views(rows@), file@, owner@, node as int),
    decreases rows@.len() - node,
{
    let ghost model = views(rows@);
    if is_function_binding(rows, node) {
        return no_facts();
    }
    let mut result = make_node_refinements(rows, file, owner, node);
    let end: usize = find_end(rows, node);
    let mut at: usize = node + 1;
    let ghost whole = views(result@) + refinements_among(
        model,
        file@,
        owner@,
        node + 1,
        end as int,
    );
    while at < end
        invariant
            node < at <= rows@.len(),
            end <= rows@.len(),
            model == views(rows@),
            views(result@) + refinements_among(model, file@, owner@, at as int, end as int)
                == whole,
        decreases rows@.len() - at,
    {
        let ghost before = views(result@);
        let next: usize = find_end(rows, at);
        proof {
            assert(model[at as int] == rows@[at as int]@);
        }
        if rows[at].named && !is_function_expression(rows, at) {
            let more = collect_ocaml_parameter_refinement_facts(rows, file, owner, at);
            let ghost added = views(more@);
            append_facts(&mut result, more);
            proof {
                let rest = refinements_among(model, file@, owner@, next as int, end as int);
                assert(before + (added + rest) =~= (before + added) + rest);
            }
        }
        at = next;
    }
    proof {
        assert(views(result@) + Seq::<FactModel>::empty() =~= views(result@));
    }
    result
}

} // verus!
