//! Instances of generic functions that calls ask for but rustc did not report.
use crate::lists::views;
use crate::model::{
    fact_models, function_models, site_models, symbol_models, CallSite, CallTarget, FactModel,
    FunctionInfo, FunctionModel, LanguageFact, LanguageId, SiteModel, SymbolId, SymbolModel,
    TargetModel,
};
use crate::names::{callable_part, callable_prefix};
use crate::rust::contexts::in_either;
use crate::rust::labels::{
    argument_list, arguments_start, instance_display, label_with_callee, last_part,
    last_path_part, normalize_instance_display, outer_call_arguments_start, replace_label_callee,
    simplified, simplified_all, simplify_type_paths, split_rust_arguments,
};
use crate::sets::{has_symbol, insert_symbol, listed_symbols, symbol_list, symbols_in_order};
use crate::text::{
    chars_of, find, find_chars, rfind, rfind_chars, same_text, slice_text, split_once,
    split_text_once, texts,
};
use vstd::prelude::*;

verus! {

/// The name and the generic arguments of an instance of a generic function.
pub open spec fn instance_parts(instance: Seq<char>) -> Option<(Seq<char>, Seq<Seq<char>>)> {
    match (find(instance, "<"@), rfind(instance, ">"@)) {
        (Some(start), Some(end)) => if end <= start {
            None
        } else {
            Some(
                (
                    last_part(instance.take(start)),
                    simplified_all(argument_list(instance.subrange(start + 1, end))),
                ),
            )
        },
        _ => None,
    }
}

/// The model of a name with generic arguments.
pub open spec fn optional_parts(parts: Option<(String, Vec<String>)>) -> Option<
    (Seq<char>, Seq<Seq<char>>),
> {
    match parts {
        Some((base, arguments)) => Some((base@, texts(arguments@))),
        None => None,
    }
}

fn simplify_all(values: &Vec<String>) -> (result: Vec<String>)
    ensures
        texts(result@) == simplified_all(texts(values@)),
{
    let mut result: Vec<String> = Vec::new();
    let mut index: usize = 0;
    while index < values.len()
        invariant
            index <= values@.len(),
            result@.len() == index,
            forall|k: int|
                0 <= k < index ==> (#[trigger] result@[k])@ == simplified(values@[k]@),
        decreases values@.len() - index,
    {
        result.push(simplify_type_paths(values[index].as_str()));
        index += 1;
    }
    proof {
        assert(texts(result@) =~= simplified_all(texts(values@)));
    }
    result
}

/// The name and the generic arguments of an instance of a generic function.
pub fn generic_instance_parts(instance: &str) -> (result: Option<(String, Vec<String>)>)
    ensures
        optional_parts(result) == instance_parts(instance@),
{
    let characters = chars_of(instance);
    match (
        find_chars(characters.as_slice(), chars_of("<").as_slice(), 0),
        rfind_chars(characters.as_slice(), chars_of(">").as_slice()),
    ) {
        (Some(start), Some(end)) => {
            if end <= start {
                return None;
            }
            let path = slice_text(characters.as_slice(), 0, start);
            proof {
                assert(instance@.subrange(0, start as int) =~= instance@.take(start as int));
            }
            let list = slice_text(characters.as_slice(), start + 1, end);
            let arguments = split_rust_arguments(list.as_str());
            Some((last_path_part(path.as_str()), simplify_all(&arguments)))
        },
        _ => None,
    }
}

/// The generic parameters of a function, by the first `count` facts.
pub open spec fn parameter_names(facts: Seq<FactModel>, subject: SymbolModel, count: int) -> Seq<
    Seq<char>,
>
    decreases count,
{
    if count <= 0 {
        Seq::empty()
    } else if facts[count - 1].kind == "generic-parameter"@ && facts[count - 1].subject == subject {
        parameter_names(facts, subject, count - 1).push(facts[count - 1].key)
    } else {
        parameter_names(facts, subject, count - 1)
    }
}

fn parameters_of(facts: &Vec<LanguageFact>, subject: &SymbolId) -> (result: Vec<String>)
    ensures
        texts(result@) == parameter_names(fact_models(facts@), subject@, facts@.len() as int),
{
    let mut result: Vec<String> = Vec::new();
    let mut index: usize = 0;
    proof {
        assert(texts(result@) =~= Seq::empty());
    }
    while index < facts.len()
        invariant
            index <= facts@.len(),
            texts(result@) == parameter_names(fact_models(facts@), subject@, index as int),
        decreases facts@.len() - index,
    {
        let fact = &facts[index];
        let ghost before = texts(result@);
        proof {
            assert(fact_models(facts@)[index as int] == fact@);
        }
        if same_text(fact.kind.as_str(), "generic-parameter") && fact.subject.same(subject) {
            result.push(fact.key.clone());
            proof {
                assert(texts(result@) =~= before.push(fact@.key));
            }
        }
        index += 1;
    }
    result
}

/// Whether any function has generic parameters.
pub open spec fn has_parameters(facts: Seq<FactModel>) -> bool {
    exists|index: int|
        0 <= index < facts.len() && (#[trigger] facts[index]).kind == "generic-parameter"@
}

fn any_parameters(facts: &Vec<LanguageFact>) -> (result: bool)
    ensures
        result == has_parameters(fact_models(facts@)),
{
    let mut index: usize = 0;
    while index < facts.len()
        invariant
            index <= facts@.len(),
            forall|k: int|
                0 <= k < index ==> (#[trigger] fact_models(facts@)[k]).kind
                    != "generic-parameter"@,
        decreases facts@.len() - index,
    {
        proof {
            assert(fact_models(facts@)[index as int] == facts@[index as int]@);
        }
        if same_text(facts[index].kind.as_str(), "generic-parameter") {
            return true;
        }
        index += 1;
    }
    false
}

/// Whether a function is generic in as many parameters as are given, under
/// the given name.
pub open spec fn is_template(
    function: FunctionModel,
    facts: Seq<FactModel>,
    base: Seq<char>,
    count: nat,
) -> bool {
    let parameters = parameter_names(facts, function.id, facts.len() as int);
    function.id.name == base && parameters.len() > 0 && parameters.len() == count
}

/// The first function from `index` on that is a template.
pub open spec fn template_from(
    functions: Seq<FunctionModel>,
    facts: Seq<FactModel>,
    base: Seq<char>,
    count: nat,
    index: int,
) -> Option<int>
    decreases functions.len() - index,
{
    if index < 0 || index >= functions.len() {
        None
    } else if is_template(functions[index], facts, base, count) {
        Some(index)
    } else {
        template_from(functions, facts, base, count, index + 1)
    }
}

fn find_template(
    functions: &Vec<FunctionInfo>,
    facts: &Vec<LanguageFact>,
    base: &str,
    count: usize,
) -> (result: Option<usize>)
    ensures
        match result {
            Some(index) => index < functions@.len() && template_from(
                function_models(functions@),
                fact_models(facts@),
                base@,
                count as nat,
                0,
            ) == Some(index as int),
            None => template_from(
                function_models(functions@),
                fact_models(facts@),
                base@,
                count as nat,
                0,
            ) is None,
        },
{
    let mut index: usize = 0;
    while index < functions.len()
        invariant
            index <= functions@.len(),
            template_from(
                function_models(functions@),
                fact_models(facts@),
                base@,
                count as nat,
                index as int,
            ) == template_from(
                function_models(functions@),
                fact_models(facts@),
                base@,
                count as nat,
                0,
            ),
        decreases functions@.len() - index,
    {
        let function = &functions[index];
        proof {
            assert(function_models(functions@)[index as int] == function@);
        }
        let parameters = parameters_of(facts, &function.id);
        proof {
            assert(texts(parameters@).len() == parameters@.len());
        }
        if same_text(function.id.name.as_str(), base) && parameters.len() > 0 && parameters.len()
            == count {
            return Some(index);
        }
        index += 1;
    }
    None
}

/// The argument for a parameter, by the first `count` parameters.
pub open spec fn argument_for(
    parameters: Seq<Seq<char>>,
    arguments: Seq<Seq<char>>,
    name: Seq<char>,
    count: int,
) -> Option<Seq<char>>
    decreases count,
{
    if count <= 0 {
        None
    } else if parameters[count - 1] == name {
        Some(arguments[count - 1])
    } else {
        argument_for(parameters, arguments, name, count - 1)
    }
}

fn find_argument(parameters: &Vec<String>, arguments: &Vec<String>, name: &str) -> (result: Option<
    String,
>)
    requires
        parameters@.len() == arguments@.len(),
    ensures
        crate::text::optional(result) == argument_for(
            texts(parameters@),
            texts(arguments@),
            name@,
            parameters@.len() as int,
        ),
{
    let mut count: usize = parameters.len();
    while count > 0
        invariant
            count <= parameters@.len(),
            parameters@.len() == arguments@.len(),
            argument_for(texts(parameters@), texts(arguments@), name@, count as int)
                == argument_for(
                texts(parameters@),
                texts(arguments@),
                name@,
                parameters@.len() as int,
            ),
        decreases count,
    {
        proof {
            assert(texts(parameters@)[count - 1] == parameters@[count - 1]@);
            assert(texts(arguments@)[count - 1] == arguments@[count - 1]@);
        }
        if same_text(parameters[count - 1].as_str(), name) {
            return Some(arguments[count - 1].clone());
        }
        count -= 1;
    }
    None
}

/// Whether a label shows the call of `callee`.
pub open spec fn shows_call_of(label: Seq<char>, callee: Seq<char>) -> bool {
    match arguments_start(label) {
        Some(start) => label.take(start) == callee,
        None => false,
    }
}

/// The first function from `index` on whose label shows the call of `callee`.
pub open spec fn shown_from(functions: Seq<FunctionModel>, callee: Seq<char>, index: int) -> Option<
    int,
>
    decreases functions.len() - index,
{
    if index < 0 || index >= functions.len() {
        None
    } else if shows_call_of(functions[index].label.default, callee) {
        Some(index)
    } else {
        shown_from(functions, callee, index + 1)
    }
}

fn find_shown(functions: &Vec<FunctionInfo>, callee: &str) -> (result: Option<usize>)
    ensures
        match result {
            Some(index) => index < functions@.len() && shown_from(
                function_models(functions@),
                callee@,
                0,
            ) == Some(index as int),
            None => shown_from(function_models(functions@), callee@, 0) is None,
        },
{
    let mut index: usize = 0;
    while index < functions.len()
        invariant
            index <= functions@.len(),
            shown_from(function_models(functions@), callee@, index as int) == shown_from(
                function_models(functions@),
                callee@,
                0,
            ),
        decreases functions@.len() - index,
    {
        let label = &functions[index].label.default;
        proof {
            assert(function_models(functions@)[index as int] == functions@[index as int]@);
        }
        match outer_call_arguments_start(label.as_str()) {
            Some(start) => {
                let shown = slice_text(chars_of(label.as_str()).as_slice(), 0, start);
                proof {
                    assert(label@.subrange(0, start as int) =~= label@.take(start as int));
                }
                if same_text(shown.as_str(), callee) {
                    return Some(index);
                }
            },
            None => {},
        }
        index += 1;
    }
    None
}

/// The type that a container stands for: the part before ` as `.
pub open spec fn container_type(container: Seq<char>) -> Seq<char> {
    match split_once(container, " as "@) {
        Some((base, _)) => base,
        None => container,
    }
}

/// A call of a template with arguments for its parameters.
pub open spec fn substituted_call(
    call: SiteModel,
    parameters: Seq<Seq<char>>,
    arguments: Seq<Seq<char>>,
    functions: Seq<FunctionModel>,
) -> SiteModel {
    match call.target {
        TargetModel::Direct(target) => match target.container {
            Some(container) => match argument_for(
                parameters,
                arguments,
                container_type(container),
                parameters.len() as int,
            ) {
                Some(concrete) => {
                    let callee = concrete + "::"@ + target.name;
                    SiteModel {
                        label: label_with_callee(call.label, callee),
                        target: TargetModel::Direct(
                            match shown_from(functions, callee, 0) {
                                Some(index) => functions[index].id,
                                None => SymbolModel {
                                    language: "rust"@,
                                    module: target.module,
                                    container: Some(concrete),
                                    name: target.name,
                                },
                            },
                        ),
                        ..call
                    }
                },
                None => call,
            },
            None => call,
        },
        _ => call,
    }
}

/// A call of a template with arguments for its parameters.
pub fn substitute_generic_call(
    call: &CallSite,
    parameters: &Vec<String>,
    arguments: &Vec<String>,
    functions: &Vec<FunctionInfo>,
) -> (result: CallSite)
    requires
        parameters@.len() == arguments@.len(),
    ensures
        result@ == substituted_call(
            call@,
            texts(parameters@),
            texts(arguments@),
            function_models(functions@),
        ),
{
    proof {
        assert(texts(parameters@).len() == parameters@.len());
    }
    match &call.target {
        CallTarget::Direct(target) => match &target.container {
            Some(container) => {
                let parameter = match split_text_once(container.as_str(), " as ") {
                    Some((base, _)) => base,
                    None => container.clone(),
                };
                match find_argument(parameters, arguments, parameter.as_str()) {
                    Some(concrete) => {
                        let mut callee = concrete.clone();
                        callee.append("::");
                        callee.append(target.name.as_str());
                        let symbol = match find_shown(functions, callee.as_str()) {
                            Some(index) => {
                                proof {
                                    assert(function_models(functions@)[index as int]
                                        == functions@[index as int]@);
                                }
                                functions[index].id.clone()
                            },
                            None => SymbolId {
                                language: LanguageId::new("rust"),
                                module: crate::text::copy_texts(&target.module),
                                container: Some(concrete),
                                name: target.name.clone(),
                            },
                        };
                        CallSite {
                            id: call.id.clone(),
                            syntax: call.syntax.clone(),
                            target: CallTarget::Direct(symbol),
                            label: replace_label_callee(&call.label, callee.as_str()),
                            span: call.span.clone(),
                        }
                    },
                    None => call.clone(),
                }
            },
            None => call.clone(),
        },
        _ => call.clone(),
    }
}

/// The instance that `target` asks for, and the template that it is made of.
pub open spec fn generic_instance(
    target: SymbolModel,
    functions: Seq<FunctionModel>,
    templates: Seq<FunctionModel>,
    facts: Seq<FactModel>,
) -> Option<(FunctionModel, SymbolModel)> {
    match instance_parts(target.name) {
        Some((base, arguments)) => match template_from(
            templates,
            facts,
            base,
            arguments.len(),
            0,
        ) {
            Some(index) => {
                let template = templates[index];
                let parameters = parameter_names(facts, template.id, facts.len() as int);
                Some(
                    (
                        FunctionModel {
                            id: target,
                            label: label_with_callee(
                                template.label,
                                instance_display(target.name, ""@),
                            ),
                            calls: template.calls.map_values(
                                |call: SiteModel|
                                    substituted_call(call, parameters, arguments, functions),
                            ),
                            ..template
                        },
                        template.id,
                    ),
                )
            },
            None => None,
        },
        None => None,
    }
}

proof fn found_template_fits(
    functions: Seq<FunctionModel>,
    facts: Seq<FactModel>,
    base: Seq<char>,
    count: nat,
    index: int,
)
    requires
        0 <= index,
    ensures
        match template_from(functions, facts, base, count, index) {
            Some(found) => index <= found < functions.len() && is_template(
                functions[found],
                facts,
                base,
                count,
            ),
            None => true,
        },
    decreases functions.len() - index,
{
    if index < functions.len() && !is_template(functions[index], facts, base, count) {
        found_template_fits(functions, facts, base, count, index + 1);
    }
}

/// The model of an instance and its template.
pub open spec fn optional_instance(instance: Option<(FunctionInfo, SymbolId)>) -> Option<
    (FunctionModel, SymbolModel),
> {
    match instance {
        Some((function, template)) => Some((function@, template@)),
        None => None,
    }
}

fn substitute_calls(
    calls: &Vec<CallSite>,
    parameters: &Vec<String>,
    arguments: &Vec<String>,
    functions: &Vec<FunctionInfo>,
) -> (result: Vec<CallSite>)
    requires
        parameters@.len() == arguments@.len(),
    ensures
        site_models(result@) == site_models(calls@).map_values(
            |call: SiteModel|
                substituted_call(
                    call,
                    texts(parameters@),
                    texts(arguments@),
                    function_models(functions@),
                ),
        ),
{
    let mut result: Vec<CallSite> = Vec::new();
    let mut index: usize = 0;
    while index < calls.len()
        invariant
            index <= calls@.len(),
            parameters@.len() == arguments@.len(),
            result@.len() == index,
            forall|k: int|
                0 <= k < index ==> (#[trigger] result@[k])@ == substituted_call(
                    calls@[k]@,
                    texts(parameters@),
                    texts(arguments@),
                    function_models(functions@),
                ),
        decreases calls@.len() - index,
    {
        result.push(substitute_generic_call(&calls[index], parameters, arguments, functions));
        index += 1;
    }
    proof {
        assert(site_models(result@) =~= site_models(calls@).map_values(
            |call: SiteModel|
                substituted_call(
                    call,
                    texts(parameters@),
                    texts(arguments@),
                    function_models(functions@),
                ),
        ));
    }
    result
}

fn instantiate(
    target: &SymbolId,
    functions: &Vec<FunctionInfo>,
    templates: &Vec<FunctionInfo>,
    facts: &Vec<LanguageFact>,
) -> (result: Option<(FunctionInfo, SymbolId)>)
    ensures
        optional_instance(result) == generic_instance(
            target@,
            function_models(functions@),
            function_models(templates@),
            fact_models(facts@),
        ),
{
    let (base, arguments) = match generic_instance_parts(target.name.as_str()) {
        Some(parts) => parts,
        None => {
            return None;
        },
    };
    proof {
        assert(texts(arguments@).len() == arguments@.len());
    }
    match find_template(templates, facts, base.as_str(), arguments.len()) {
        Some(index) => {
            let template = &templates[index];
            proof {
                assert(function_models(templates@)[index as int] == template@);
                found_template_fits(
                    function_models(templates@),
                    fact_models(facts@),
                    base@,
                    arguments@.len(),
                    0,
                );
            }
            let parameters = parameters_of(facts, &template.id);
            proof {
                assert(texts(parameters@).len() == parameters@.len());
            }
            let display = normalize_instance_display(target.name.as_str(), "");
            let function = FunctionInfo {
                id: target.clone(),
                label: replace_label_callee(&template.label, display.as_str()),
                public: template.public,
                calls: substitute_calls(&template.calls, &parameters, &arguments, functions),
                span: template.span.clone(),
            };
            Some((function, template.id.clone()))
        },
        None => None,
    }
}

/// Whether a function has the given identity.
pub open spec fn has_id(functions: Seq<FunctionModel>, id: SymbolModel) -> bool {
    exists|index: int| 0 <= index < functions.len() && (#[trigger] functions[index]).id == id
}

fn is_known(functions: &Vec<FunctionInfo>, id: &SymbolId) -> (result: bool)
    ensures
        result == has_id(function_models(functions@), id@),
{
    let mut index: usize = 0;
    while index < functions.len()
        invariant
            index <= functions@.len(),
            forall|k: int| 0 <= k < index ==> (#[trigger] function_models(functions@)[k]).id != id@,
        decreases functions@.len() - index,
    {
        proof {
            assert(function_models(functions@)[index as int] == functions@[index as int]@);
        }
        if functions[index].id.same(id) {
            return true;
        }
        index += 1;
    }
    false
}

/// Whether a call asks for a Rust function that is not there.
pub open spec fn asks_for(functions: Seq<FunctionModel>, call: SiteModel) -> bool {
    match call.target {
        TargetModel::Direct(target) => target.language == "rust"@ && !has_id(functions, target),
        _ => false,
    }
}

/// The functions that the first `count` calls ask for and that are not there.
pub open spec fn missing_of_calls(
    functions: Seq<FunctionModel>,
    calls: Seq<SiteModel>,
    count: int,
) -> Set<SymbolModel>
    decreases count,
{
    if count <= 0 {
        Set::empty()
    } else if asks_for(functions, calls[count - 1]) {
        missing_of_calls(functions, calls, count - 1).insert(calls[count - 1].target->Direct_0)
    } else {
        missing_of_calls(functions, calls, count - 1)
    }
}

/// The functions that calls of the first `count` functions ask for and that
/// are not there.
pub open spec fn missing_of(functions: Seq<FunctionModel>, count: int) -> Set<SymbolModel>
    decreases count,
{
    if count <= 0 {
        Set::empty()
    } else {
        missing_of(functions, count - 1).union(
            missing_of_calls(
                functions,
                functions[count - 1].calls,
                functions[count - 1].calls.len() as int,
            ),
        )
    }
}

fn add_missing(functions: &Vec<FunctionInfo>, calls: &Vec<CallSite>, missing: &mut Vec<SymbolId>)
    requires
        symbols_in_order(symbol_models(old(missing)@)),
    ensures
        symbols_in_order(symbol_models(final(missing)@)),
        symbol_models(final(missing)@).to_set() == symbol_models(old(missing)@).to_set().union(
            missing_of_calls(
                function_models(functions@),
                site_models(calls@),
                calls@.len() as int,
            ),
        ),
{
    let ghost start = symbol_models(missing@).to_set();
    let mut index: usize = 0;
    proof {
        assert(start.union(Set::empty()) =~= start);
    }
    while index < calls.len()
        invariant
            index <= calls@.len(),
            symbols_in_order(symbol_models(missing@)),
            symbol_models(missing@).to_set() == start.union(
                missing_of_calls(
                    function_models(functions@),
                    site_models(calls@),
                    index as int,
                ),
            ),
        decreases calls@.len() - index,
    {
        let call = &calls[index];
        let ghost before = missing_of_calls(
            function_models(functions@),
            site_models(calls@),
            index as int,
        );
        proof {
            assert(site_models(calls@)[index as int] == call@);
        }
        match &call.target {
            CallTarget::Direct(target) => {
                if same_text(target.language.0.as_str(), "rust") && !is_known(functions, target) {
                    let added = insert_symbol(missing, target.clone());
                    proof {
                        assert(start.union(before).insert(target@) =~= start.union(
                            before.insert(target@),
                        ));
                    }
                }
            },
            _ => {},
        }
        index += 1;
    }
}

fn missing_targets(functions: &Vec<FunctionInfo>) -> (result: Vec<SymbolId>)
    ensures
        symbol_models(result@) == symbol_list(
            missing_of(function_models(functions@), functions@.len() as int),
        ),
        symbol_models(result@).to_set() == missing_of(
            function_models(functions@),
            functions@.len() as int,
        ),
{
    let mut missing: Vec<SymbolId> = Vec::new();
    let mut index: usize = 0;
    proof {
        assert(symbol_models(missing@) =~= Seq::empty());
        assert(symbol_models(missing@).to_set() =~= Set::empty());
    }
    while index < functions.len()
        invariant
            index <= functions@.len(),
            symbols_in_order(symbol_models(missing@)),
            symbol_models(missing@).to_set() == missing_of(
                function_models(functions@),
                index as int,
            ),
        decreases functions@.len() - index,
    {
        proof {
            assert(function_models(functions@)[index as int] == functions@[index as int]@);
        }
        add_missing(functions, &functions[index].calls, &mut missing);
        index += 1;
    }
    proof {
        listed_symbols(
            symbol_models(missing@),
            missing_of(function_models(functions@), functions@.len() as int),
        );
    }
    missing
}

/// Functions, and the templates that some of them were made of.
#[verifier::ext_equal]
pub struct GrownModel {
    pub functions: Seq<FunctionModel>,
    pub used: Seq<SymbolModel>,
}

/// The instances that the first `count` targets ask for.
pub open spec fn additions(
    functions: Seq<FunctionModel>,
    templates: Seq<FunctionModel>,
    facts: Seq<FactModel>,
    targets: Seq<SymbolModel>,
    count: int,
) -> GrownModel
    decreases count,
{
    if count <= 0 {
        GrownModel { functions: Seq::empty(), used: Seq::empty() }
    } else {
        let before = additions(functions, templates, facts, targets, count - 1);
        match generic_instance(targets[count - 1], functions, templates, facts) {
            Some((function, template)) => GrownModel {
                functions: before.functions.push(function),
                used: before.used.push(template),
            },
            None => before,
        }
    }
}

/// The instances that calls ask for and that are not there.
pub open spec fn round(
    functions: Seq<FunctionModel>,
    templates: Seq<FunctionModel>,
    facts: Seq<FactModel>,
) -> GrownModel {
    let targets = symbol_list(missing_of(functions, functions.len() as int));
    additions(functions, templates, facts, targets, targets.len() as int)
}

/// The functions after `count` rounds in which the instances were added that
/// calls ask for.
pub open spec fn rounds(
    functions: Seq<FunctionModel>,
    templates: Seq<FunctionModel>,
    facts: Seq<FactModel>,
    count: nat,
) -> GrownModel
    decreases count,
{
    if count == 0 {
        GrownModel { functions, used: Seq::empty() }
    } else {
        let before = rounds(functions, templates, facts, (count - 1) as nat);
        let added = round(before.functions, templates, facts);
        GrownModel {
            functions: before.functions + added.functions,
            used: before.used + added.used,
        }
    }
}

/// Whether round `count` is the first that adds nothing.
pub open spec fn settles_at(
    functions: Seq<FunctionModel>,
    templates: Seq<FunctionModel>,
    facts: Seq<FactModel>,
    count: nat,
) -> bool {
    &&& round(rounds(functions, templates, facts, count).functions, templates, facts).functions.len()
        == 0
    &&& forall|earlier: nat|
        earlier < count ==> round(
            (#[trigger] rounds(functions, templates, facts, earlier)).functions,
            templates,
            facts,
        ).functions.len() > 0
}

/// The functions after all instances were added that calls ask for.
pub open spec fn grown(
    functions: Seq<FunctionModel>,
    templates: Seq<FunctionModel>,
    facts: Seq<FactModel>,
) -> GrownModel {
    rounds(
        functions,
        templates,
        facts,
        choose|count: nat| #[trigger] settles_at(functions, templates, facts, count),
    )
}

proof fn rounds_settle_once(
    functions: Seq<FunctionModel>,
    templates: Seq<FunctionModel>,
    facts: Seq<FactModel>,
    count: nat,
)
    requires
        settles_at(functions, templates, facts, count),
    ensures
        grown(functions, templates, facts) == rounds(functions, templates, facts, count),
{
    let chosen = choose|count: nat| #[trigger] settles_at(functions, templates, facts, count);
    assert(settles_at(functions, templates, facts, chosen));
    if chosen < count {
        assert(round(rounds(functions, templates, facts, chosen).functions, templates, facts)
            .functions.len() > 0);
    }
    if count < chosen {
        assert(round(rounds(functions, templates, facts, count).functions, templates, facts)
            .functions.len() > 0);
    }
}

spec fn targets_of_calls(calls: Seq<SiteModel>, count: int) -> Seq<SymbolModel>
    decreases count,
{
    if count <= 0 {
        Seq::empty()
    } else if calls[count - 1].target is Direct {
        targets_of_calls(calls, count - 1).push(calls[count - 1].target->Direct_0)
    } else {
        targets_of_calls(calls, count - 1)
    }
}

proof fn call_targets_are_listed(calls: Seq<SiteModel>, count: int, index: int)
    requires
        0 <= index < count <= calls.len(),
        calls[index].target is Direct,
    ensures
        targets_of_calls(calls, count).contains(calls[index].target->Direct_0),
    decreases count,
{
    let before = targets_of_calls(calls, count - 1);
    let after = targets_of_calls(calls, count);
    let target = calls[index].target->Direct_0;
    if index == count - 1 {
        assert(after[after.len() - 1] == target);
    } else {
        call_targets_are_listed(calls, count - 1, index);
        let place = choose|place: int| 0 <= place < before.len() && before[place] == target;
        assert(after[place] == target);
    }
}

spec fn targets_of(functions: Seq<FunctionModel>, count: int) -> Seq<SymbolModel>
    decreases count,
{
    if count <= 0 {
        Seq::empty()
    } else {
        targets_of(functions, count - 1) + targets_of_calls(
            functions[count - 1].calls,
            functions[count - 1].calls.len() as int,
        )
    }
}

proof fn targets_are_listed(functions: Seq<FunctionModel>, count: int, index: int, call: int)
    requires
        0 <= index < count <= functions.len(),
        0 <= call < functions[index].calls.len(),
        functions[index].calls[call].target is Direct,
    ensures
        targets_of(functions, count).contains(functions[index].calls[call].target->Direct_0),
    decreases count,
{
    let target = functions[index].calls[call].target->Direct_0;
    let calls = functions[count - 1].calls;
    in_either(
        targets_of(functions, count - 1),
        targets_of_calls(calls, calls.len() as int),
        target,
    );
    if index == count - 1 {
        call_targets_are_listed(calls, calls.len() as int, call);
    } else {
        targets_are_listed(functions, count - 1, index, call);
    }
}

spec fn arguments_in(name: Seq<char>) -> Seq<Seq<char>> {
    match instance_parts(name) {
        Some((_, arguments)) => arguments,
        None => Seq::empty(),
    }
}

spec fn arguments_of(targets: Seq<SymbolModel>, count: int) -> Seq<Seq<char>>
    decreases count,
{
    if count <= 0 {
        Seq::empty()
    } else {
        arguments_of(targets, count - 1) + arguments_in(targets[count - 1].name)
    }
}

proof fn arguments_are_listed(
    targets: Seq<SymbolModel>,
    count: int,
    index: int,
    argument: Seq<char>,
)
    requires
        0 <= index < count <= targets.len(),
        arguments_in(targets[index].name).contains(argument),
    ensures
        arguments_of(targets, count).contains(argument),
    decreases count,
{
    in_either(
        arguments_of(targets, count - 1),
        arguments_in(targets[count - 1].name),
        argument,
    );
    if index < count - 1 {
        arguments_are_listed(targets, count - 1, index, argument);
    }
}

spec fn with_container(target: SymbolModel, container: Seq<char>) -> SymbolModel {
    SymbolModel { language: "rust"@, container: Some(container), ..target }
}

spec fn with_containers(target: SymbolModel, containers: Seq<Seq<char>>) -> Seq<SymbolModel> {
    containers.map_values(|container: Seq<char>| with_container(target, container))
}

spec fn products(targets: Seq<SymbolModel>, containers: Seq<Seq<char>>, count: int) -> Seq<
    SymbolModel,
>
    decreases count,
{
    if count <= 0 {
        Seq::empty()
    } else {
        products(targets, containers, count - 1) + with_containers(targets[count - 1], containers)
    }
}

proof fn products_are_listed(
    targets: Seq<SymbolModel>,
    containers: Seq<Seq<char>>,
    count: int,
    index: int,
    container: Seq<char>,
)
    requires
        0 <= index < count <= targets.len(),
        containers.contains(container),
    ensures
        products(targets, containers, count).contains(with_container(targets[index], container)),
    decreases count,
{
    in_either(
        products(targets, containers, count - 1),
        with_containers(targets[count - 1], containers),
        with_container(targets[index], container),
    );
    if index == count - 1 {
        let place = choose|place: int|
            0 <= place < containers.len() && containers[place] == container;
        assert(with_containers(targets[index], containers)[place] == with_container(
            targets[index],
            container,
        ));
    } else {
        products_are_listed(targets, containers, count - 1, index, container);
    }
}

proof fn products_keep_names(
    targets: Seq<SymbolModel>,
    containers: Seq<Seq<char>>,
    count: int,
    item: SymbolModel,
)
    requires
        0 <= count <= targets.len(),
        products(targets, containers, count).contains(item),
    ensures
        exists|index: int| 0 <= index < targets.len() && (#[trigger] targets[index]).name == item.name,
    decreases count,
{
    if count > 0 {
        let last = with_containers(targets[count - 1], containers);
        in_either(products(targets, containers, count - 1), last, item);
        if last.contains(item) {
            let place = choose|place: int| 0 <= place < last.len() && last[place] == item;
            assert(last[place] == with_container(targets[count - 1], containers[place]));
            assert(targets[count - 1].name == item.name);
        } else {
            products_keep_names(targets, containers, count - 1, item);
        }
    }
}

spec fn first_targets(functions: Seq<FunctionModel>, templates: Seq<FunctionModel>) -> Seq<
    SymbolModel,
> {
    targets_of(functions, functions.len() as int) + targets_of(templates, templates.len() as int)
}

// The symbols that calls can ever ask for.
spec fn universe(functions: Seq<FunctionModel>, templates: Seq<FunctionModel>) -> Seq<SymbolModel> {
    let targets = first_targets(functions, templates);
    targets + products(
        targets,
        arguments_of(targets, targets.len() as int),
        targets.len() as int,
    )
}

proof fn universe_keeps_names(
    functions: Seq<FunctionModel>,
    templates: Seq<FunctionModel>,
    item: SymbolModel,
)
    requires
        universe(functions, templates).contains(item),
    ensures
        exists|index: int|
            0 <= index < first_targets(functions, templates).len() && (#[trigger] first_targets(
                functions,
                templates,
            )[index]).name == item.name,
{
    let targets = first_targets(functions, templates);
    let containers = arguments_of(targets, targets.len() as int);
    in_either(targets, products(targets, containers, targets.len() as int), item);
    if targets.contains(item) {
        let place = choose|place: int| 0 <= place < targets.len() && targets[place] == item;
        assert(targets[place].name == item.name);
    } else {
        products_keep_names(targets, containers, targets.len() as int, item);
    }
}

// Whether a call asks for a symbol of the list or for a function that is there.
spec fn call_covered(
    call: SiteModel,
    functions: Seq<FunctionModel>,
    symbols: Seq<SymbolModel>,
) -> bool {
    call.target is Direct ==> symbols.contains(call.target->Direct_0) || has_id(
        functions,
        call.target->Direct_0,
    )
}

spec fn function_covered(
    function: FunctionModel,
    functions: Seq<FunctionModel>,
    symbols: Seq<SymbolModel>,
) -> bool {
    forall|call: int|
        0 <= call < function.calls.len() ==> call_covered(
            #[trigger] function.calls[call],
            functions,
            symbols,
        )
}

spec fn covered(functions: Seq<FunctionModel>, symbols: Seq<SymbolModel>) -> bool {
    forall|index: int|
        0 <= index < functions.len() ==> function_covered(
            #[trigger] functions[index],
            functions,
            symbols,
        )
}

proof fn first_functions_are_covered(
    functions: Seq<FunctionModel>,
    templates: Seq<FunctionModel>,
)
    ensures
        covered(functions, universe(functions, templates)),
{
    let symbols = universe(functions, templates);
    let targets = first_targets(functions, templates);
    assert forall|index: int| 0 <= index < functions.len() implies function_covered(
        #[trigger] functions[index],
        functions,
        symbols,
    ) by {
        let function = functions[index];
        assert forall|call: int| 0 <= call < function.calls.len() implies call_covered(
            #[trigger] function.calls[call],
            functions,
            symbols,
        ) by {
            if function.calls[call].target is Direct {
                let target = function.calls[call].target->Direct_0;
                targets_are_listed(functions, functions.len() as int, index, call);
                in_either(
                    targets_of(functions, functions.len() as int),
                    targets_of(templates, templates.len() as int),
                    target,
                );
                in_either(
                    targets,
                    products(
                        targets,
                        arguments_of(targets, targets.len() as int),
                        targets.len() as int,
                    ),
                    target,
                );
            }
        }
    }
}

proof fn argument_is_one(
    parameters: Seq<Seq<char>>,
    arguments: Seq<Seq<char>>,
    name: Seq<char>,
    count: int,
)
    requires
        0 <= count <= parameters.len(),
        parameters.len() == arguments.len(),
    ensures
        match argument_for(parameters, arguments, name, count) {
            Some(argument) => arguments.contains(argument),
            None => true,
        },
    decreases count,
{
    if count > 0 && parameters[count - 1] != name {
        argument_is_one(parameters, arguments, name, count - 1);
    }
}

proof fn shown_is_one(functions: Seq<FunctionModel>, callee: Seq<char>, index: int)
    requires
        0 <= index,
    ensures
        match shown_from(functions, callee, index) {
            Some(found) => 0 <= found < functions.len(),
            None => true,
        },
    decreases functions.len() - index,
{
    if index < functions.len() && !shows_call_of(functions[index].label.default, callee) {
        shown_is_one(functions, callee, index + 1);
    }
}

#[verifier::rlimit(30)]
proof fn instances_are_covered(
    first: Seq<FunctionModel>,
    functions: Seq<FunctionModel>,
    templates: Seq<FunctionModel>,
    facts: Seq<FactModel>,
    target: SymbolModel,
)
    requires
        universe(first, templates).contains(target),
    ensures
        match generic_instance(target, functions, templates, facts) {
            Some((function, _)) => function.id == target && function_covered(
                function,
                functions,
                universe(first, templates),
            ),
            None => true,
        },
{
    let symbols = universe(first, templates);
    let targets = first_targets(first, templates);
    let containers = arguments_of(targets, targets.len() as int);
    if let Some((function, _)) = generic_instance(target, functions, templates, facts) {
        let (base, arguments) = instance_parts(target.name)->0;
        found_template_fits(templates, facts, base, arguments.len(), 0);
        let found = template_from(templates, facts, base, arguments.len(), 0)->0;
        let template = templates[found];
        let parameters = parameter_names(facts, template.id, facts.len() as int);
        assert forall|call: int| 0 <= call < function.calls.len() implies call_covered(
            #[trigger] function.calls[call],
            functions,
            symbols,
        ) by {
            let written = template.calls[call];
            assert(function.calls[call] == substituted_call(
                written,
                parameters,
                arguments,
                functions,
            ));
            if written.target is Direct {
                let asked = written.target->Direct_0;
                targets_are_listed(templates, templates.len() as int, found, call);
                in_either(
                    targets_of(first, first.len() as int),
                    targets_of(templates, templates.len() as int),
                    asked,
                );
                in_either(
                    targets,
                    products(targets, containers, targets.len() as int),
                    asked,
                );
                if let Some(container) = asked.container {
                    let parameter = container_type(container);
                    argument_is_one(parameters, arguments, parameter, parameters.len() as int);
                    if let Some(concrete) = argument_for(
                        parameters,
                        arguments,
                        parameter,
                        parameters.len() as int,
                    ) {
                        let callee = concrete + "::"@ + asked.name;
                        shown_is_one(functions, callee, 0);
                        match shown_from(functions, callee, 0) {
                            Some(index) => {
                                assert(functions[index].id == functions[index].id);
                                assert(has_id(functions, functions[index].id));
                            },
                            None => {
                                universe_keeps_names(first, templates, target);
                                let named = choose|index: int|
                                    0 <= index < targets.len() && (#[trigger] targets[index]).name
                                        == target.name;
                                arguments_are_listed(
                                    targets,
                                    targets.len() as int,
                                    named,
                                    concrete,
                                );
                                let place = choose|place: int|
                                    0 <= place < targets.len() && targets[place] == asked;
                                products_are_listed(
                                    targets,
                                    containers,
                                    targets.len() as int,
                                    place,
                                    concrete,
                                );
                                let product = with_container(asked, concrete);
                                in_either(
                                    targets,
                                    products(targets, containers, targets.len() as int),
                                    product,
                                );
                                assert(function.calls[call].target->Direct_0 =~= product);
                            },
                        }
                    }
                }
            }
        }
    }
}

proof fn missing_calls_are_asked(
    functions: Seq<FunctionModel>,
    calls: Seq<SiteModel>,
    count: int,
    target: SymbolModel,
)
    requires
        0 <= count <= calls.len(),
        missing_of_calls(functions, calls, count).contains(target),
    ensures
        !has_id(functions, target),
        exists|call: int|
            0 <= call < calls.len() && (#[trigger] calls[call]).target == TargetModel::Direct(
                target,
            ),
    decreases count,
{
    if count > 0 {
        if asks_for(functions, calls[count - 1]) && calls[count - 1].target->Direct_0 == target {
            assert(calls[count - 1].target == TargetModel::Direct(target));
        } else {
            missing_calls_are_asked(functions, calls, count - 1, target);
        }
    }
}

proof fn missing_are_covered(
    functions: Seq<FunctionModel>,
    symbols: Seq<SymbolModel>,
    count: int,
    target: SymbolModel,
)
    requires
        0 <= count <= functions.len(),
        covered(functions, symbols),
        missing_of(functions, count).contains(target),
    ensures
        !has_id(functions, target),
        symbols.contains(target),
    decreases count,
{
    if count > 0 {
        let function = functions[count - 1];
        if missing_of_calls(functions, function.calls, function.calls.len() as int).contains(
            target,
        ) {
            missing_calls_are_asked(
                functions,
                function.calls,
                function.calls.len() as int,
                target,
            );
            let call = choose|call: int|
                0 <= call < function.calls.len() && (#[trigger] function.calls[call]).target
                    == TargetModel::Direct(target);
            assert(function_covered(function, functions, symbols));
            assert(call_covered(function.calls[call], functions, symbols));
        } else {
            missing_are_covered(functions, symbols, count - 1, target);
        }
    }
}

proof fn additions_are_covered(
    first: Seq<FunctionModel>,
    functions: Seq<FunctionModel>,
    templates: Seq<FunctionModel>,
    facts: Seq<FactModel>,
    targets: Seq<SymbolModel>,
    count: int,
)
    requires
        0 <= count <= targets.len(),
        forall|index: int|
            0 <= index < targets.len() ==> universe(first, templates).contains(
                #[trigger] targets[index],
            ) && !has_id(functions, targets[index]),
    ensures
        forall|index: int|
            #![trigger additions(functions, templates, facts, targets, count).functions[index]]
            0 <= index < additions(functions, templates, facts, targets, count).functions.len()
                ==> {
                let added = additions(functions, templates, facts, targets, count).functions[index];
                &&& universe(first, templates).contains(added.id)
                &&& !has_id(functions, added.id)
                &&& function_covered(added, functions, universe(first, templates))
            },
    decreases count,
{
    if count > 0 {
        additions_are_covered(first, functions, templates, facts, targets, count - 1);
        instances_are_covered(first, functions, templates, facts, targets[count - 1]);
    }
}

// How many of the first `count` symbols are no functions.
spec fn unknown(symbols: Seq<SymbolModel>, functions: Seq<FunctionModel>, count: int) -> nat
    decreases count,
{
    if count <= 0 {
        0
    } else {
        unknown(symbols, functions, count - 1) + if has_id(functions, symbols[count - 1]) {
            0nat
        } else {
            1nat
        }
    }
}

proof fn known_stay_known(
    functions: Seq<FunctionModel>,
    added: Seq<FunctionModel>,
    id: SymbolModel,
)
    ensures
        has_id(functions, id) ==> has_id(functions + added, id),
        has_id(added, id) ==> has_id(functions + added, id),
{
    if has_id(functions, id) {
        let place = choose|place: int|
            0 <= place < functions.len() && (#[trigger] functions[place]).id == id;
        assert((functions + added)[place].id == id);
    }
    if has_id(added, id) {
        let place = choose|place: int| 0 <= place < added.len() && (#[trigger] added[place]).id == id;
        assert((functions + added)[functions.len() + place].id == id);
    }
}

proof fn additions_leave_fewer(
    symbols: Seq<SymbolModel>,
    functions: Seq<FunctionModel>,
    added: Seq<FunctionModel>,
    count: int,
)
    requires
        0 <= count <= symbols.len(),
    ensures
        unknown(symbols, functions + added, count) <= unknown(symbols, functions, count),
        (exists|index: int|
            0 <= index < count && !has_id(functions, #[trigger] symbols[index]) && has_id(
                added,
                symbols[index],
            )) ==> unknown(symbols, functions + added, count) < unknown(symbols, functions, count),
    decreases count,
{
    if count > 0 {
        additions_leave_fewer(symbols, functions, added, count - 1);
        known_stay_known(functions, added, symbols[count - 1]);
    }
}

proof fn rounds_make_progress(
    first: Seq<FunctionModel>,
    functions: Seq<FunctionModel>,
    templates: Seq<FunctionModel>,
    facts: Seq<FactModel>,
    targets: Seq<SymbolModel>,
)
    requires
        covered(functions, universe(first, templates)),
        targets.to_set() == missing_of(functions, functions.len() as int),
    ensures
        ({
            let added = additions(
                functions,
                templates,
                facts,
                targets,
                targets.len() as int,
            ).functions;
            let symbols = universe(first, templates);
            &&& covered(functions + added, symbols)
            &&& added.len() > 0 ==> unknown(symbols, functions + added, symbols.len() as int)
                < unknown(symbols, functions, symbols.len() as int)
        }),
{
    let symbols = universe(first, templates);
    assert forall|index: int| 0 <= index < targets.len() implies symbols.contains(
        #[trigger] targets[index],
    ) && !has_id(functions, targets[index]) by {
        assert(targets.to_set().contains(targets[index]));
        missing_are_covered(functions, symbols, functions.len() as int, targets[index]);
    }
    let added = additions(functions, templates, facts, targets, targets.len() as int).functions;
    additions_are_covered(first, functions, templates, facts, targets, targets.len() as int);
    let all = functions + added;
    assert forall|index: int| 0 <= index < all.len() implies function_covered(
        #[trigger] all[index],
        all,
        symbols,
    ) by {
        let function = all[index];
        if index < functions.len() {
            assert(function == functions[index]);
        } else {
            assert(function == added[index - functions.len()]);
        }
        assert(function_covered(function, functions, symbols));
        assert forall|call: int| 0 <= call < function.calls.len() implies call_covered(
            #[trigger] function.calls[call],
            all,
            symbols,
        ) by {
            assert(call_covered(function.calls[call], functions, symbols));
            if function.calls[call].target is Direct {
                known_stay_known(functions, added, function.calls[call].target->Direct_0);
            }
        }
    }
    additions_leave_fewer(symbols, functions, added, symbols.len() as int);
    if added.len() > 0 {
        let id = added[0].id;
        assert(has_id(added, id));
        let place = choose|place: int| 0 <= place < symbols.len() && symbols[place] == id;
        assert(!has_id(functions, symbols[place]) && has_id(added, symbols[place]));
    }
}

fn add_instances(
    functions: &Vec<FunctionInfo>,
    templates: &Vec<FunctionInfo>,
    facts: &Vec<LanguageFact>,
    targets: &Vec<SymbolId>,
) -> (result: (Vec<FunctionInfo>, Vec<SymbolId>))
    ensures
        (GrownModel { functions: function_models(result.0@), used: views(result.1@) })
            == additions(
            function_models(functions@),
            function_models(templates@),
            fact_models(facts@),
            symbol_models(targets@),
            targets@.len() as int,
        ),
{
    let mut added: Vec<FunctionInfo> = Vec::new();
    let mut used: Vec<SymbolId> = Vec::new();
    let mut index: usize = 0;
    proof {
        assert(function_models(added@) =~= Seq::empty());
        assert(views(used@) =~= Seq::empty());
    }
    while index < targets.len()
        invariant
            index <= targets@.len(),
            (GrownModel { functions: function_models(added@), used: views(used@) }) == additions(
                function_models(functions@),
                function_models(templates@),
                fact_models(facts@),
                symbol_models(targets@),
                index as int,
            ),
        decreases targets@.len() - index,
    {
        let ghost before = function_models(added@);
        let ghost templates_before = views(used@);
        proof {
            assert(symbol_models(targets@)[index as int] == targets@[index as int]@);
        }
        match instantiate(&targets[index], functions, templates, facts) {
            Some((function, template)) => {
                let ghost models = (function@, template@);
                added.push(function);
                used.push(template);
                proof {
                    assert(function_models(added@) =~= before.push(models.0));
                    assert(views(used@) =~= templates_before.push(models.1));
                }
            },
            None => {},
        }
        index += 1;
    }
    (added, used)
}

fn grow(
    functions: &mut Vec<FunctionInfo>,
    templates: &Vec<FunctionInfo>,
    facts: &Vec<LanguageFact>,
) -> (used: Vec<SymbolId>)
    ensures
        (GrownModel { functions: function_models(final(functions)@), used: views(used@) }) == grown(
            function_models(old(functions)@),
            function_models(templates@),
            fact_models(facts@),
        ),
{
    let mut used: Vec<SymbolId> = Vec::new();
    let ghost first = function_models(functions@);
    let ghost symbols = universe(first, function_models(templates@));
    let ghost mut count: nat = 0;
    proof {
        assert(views(used@) =~= Seq::empty());
        first_functions_are_covered(first, function_models(templates@));
    }
    loop
        invariant
            symbols == universe(first, function_models(templates@)),
            covered(function_models(functions@), symbols),
            (GrownModel { functions: function_models(functions@), used: views(used@) }) == rounds(
                first,
                function_models(templates@),
                fact_models(facts@),
                count,
            ),
            forall|earlier: nat|
                earlier < count ==> round(
                    (#[trigger] rounds(
                        first,
                        function_models(templates@),
                        fact_models(facts@),
                        earlier,
                    )).functions,
                    function_models(templates@),
                    fact_models(facts@),
                ).functions.len() > 0,
            first == function_models(old(functions)@),
        decreases unknown(symbols, function_models(functions@), symbols.len() as int),
    {
        let targets = missing_targets(functions);
        let (mut added, mut more) = add_instances(functions, templates, facts, &targets);
        let ghost before = function_models(functions@);
        let ghost used_before = views(used@);
        let ghost more_functions = function_models(added@);
        let ghost more_used = views(more@);
        proof {
            rounds_make_progress(
                first,
                before,
                function_models(templates@),
                fact_models(facts@),
                symbol_models(targets@),
            );
            assert(symbol_models(targets@).len() == targets@.len());
            assert(round(before, function_models(templates@), fact_models(facts@))
                == (GrownModel { functions: more_functions, used: more_used }));
            assert(more_functions.len() == added@.len());
        }
        if added.len() == 0 {
            proof {
                assert(settles_at(
                    first,
                    function_models(templates@),
                    fact_models(facts@),
                    count,
                ));
                rounds_settle_once(
                    first,
                    function_models(templates@),
                    fact_models(facts@),
                    count,
                );
            }
            return used;
        }
        functions.append(&mut added);
        used.append(&mut more);
        proof {
            assert(function_models(functions@) =~= before + more_functions);
            assert(views(used@) =~= used_before + more_used);
            count = count + 1;
        }
    }
}

/// What is shown for the function with an identity, by the first `count`
/// functions.
pub open spec fn display_of(functions: Seq<FunctionModel>, id: SymbolModel, count: int) -> Option<
    Seq<char>,
>
    decreases count,
{
    if count <= 0 {
        None
    } else if functions[count - 1].id == id {
        Some(callable_part(functions[count - 1].label.default))
    } else {
        display_of(functions, id, count - 1)
    }
}

/// A call, labelled by what is shown for the function that it reaches.
pub open spec fn relabelled(functions: Seq<FunctionModel>, call: SiteModel) -> SiteModel {
    match call.target {
        TargetModel::Direct(target) => match display_of(
            functions,
            target,
            functions.len() as int,
        ) {
            Some(display) => SiteModel { label: label_with_callee(call.label, display), ..call },
            None => call,
        },
        _ => call,
    }
}

/// A function whose calls are labelled by what is shown for the functions that
/// they reach.
pub open spec fn with_relabelled(
    functions: Seq<FunctionModel>,
    function: FunctionModel,
) -> FunctionModel {
    FunctionModel {
        calls: function.calls.map_values(|call: SiteModel| relabelled(functions, call)),
        ..function
    }
}

/// The first `count` functions that are no used templates, with their calls
/// labelled anew.
pub open spec fn finished_functions(grown: GrownModel, count: int) -> Seq<FunctionModel>
    decreases count,
{
    if count <= 0 {
        Seq::empty()
    } else {
        let before = finished_functions(grown, count - 1);
        let function = grown.functions[count - 1];
        if grown.used.contains(function.id) {
            before
        } else {
            before.push(with_relabelled(grown.functions, function))
        }
    }
}

/// The first `count` facts that are not about used templates.
pub open spec fn finished_facts(
    facts: Seq<FactModel>,
    used: Seq<SymbolModel>,
    count: int,
) -> Seq<FactModel>
    decreases count,
{
    if count <= 0 {
        Seq::empty()
    } else if used.contains(facts[count - 1].subject) {
        finished_facts(facts, used, count - 1)
    } else {
        finished_facts(facts, used, count - 1).push(facts[count - 1])
    }
}

/// Functions and facts with the instances of generic functions that calls ask
/// for, in place of the templates that these were made of.
pub open spec fn with_instances(
    functions: Seq<FunctionModel>,
    facts: Seq<FactModel>,
    templates: Seq<FunctionModel>,
    template_facts: Seq<FactModel>,
) -> (Seq<FunctionModel>, Seq<FactModel>) {
    if has_parameters(template_facts) {
        let grown = grown(functions, templates, template_facts);
        (
            finished_functions(grown, grown.functions.len() as int),
            finished_facts(facts, grown.used, facts.len() as int),
        )
    } else {
        (functions, facts)
    }
}

fn find_display(functions: &Vec<FunctionInfo>, id: &SymbolId) -> (result: Option<String>)
    ensures
        crate::text::optional(result) == display_of(
            function_models(functions@),
            id@,
            functions@.len() as int,
        ),
{
    let mut count: usize = functions.len();
    while count > 0
        invariant
            count <= functions@.len(),
            display_of(function_models(functions@), id@, count as int) == display_of(
                function_models(functions@),
                id@,
                functions@.len() as int,
            ),
        decreases count,
    {
        proof {
            assert(function_models(functions@)[count - 1] == functions@[count - 1]@);
        }
        if functions[count - 1].id.same(id) {
            return Some(callable_prefix(functions[count - 1].label.default.as_str()));
        }
        count -= 1;
    }
    None
}

fn relabel_calls(functions: &Vec<FunctionInfo>, calls: &Vec<CallSite>) -> (result: Vec<CallSite>)
    ensures
        site_models(result@) == site_models(calls@).map_values(
            |call: SiteModel| relabelled(function_models(functions@), call),
        ),
{
    let mut result: Vec<CallSite> = Vec::new();
    let mut index: usize = 0;
    while index < calls.len()
        invariant
            index <= calls@.len(),
            result@.len() == index,
            forall|k: int|
                0 <= k < index ==> (#[trigger] result@[k])@ == relabelled(
                    function_models(functions@),
                    calls@[k]@,
                ),
        decreases calls@.len() - index,
    {
        let call = &calls[index];
        let mut copy = call.clone();
        match &call.target {
            CallTarget::Direct(target) => {
                match find_display(functions, target) {
                    Some(display) => {
                        copy.label = replace_label_callee(&call.label, display.as_str());
                    },
                    None => {},
                }
            },
            _ => {},
        }
        result.push(copy);
        index += 1;
    }
    proof {
        assert(site_models(result@) =~= site_models(calls@).map_values(
            |call: SiteModel| relabelled(function_models(functions@), call),
        ));
    }
    result
}

fn holds_symbol(symbols: &Vec<SymbolId>, symbol: &SymbolId) -> (result: bool)
    ensures
        result == views(symbols@).contains(symbol@),
{
    proof {
        assert(views(symbols@) =~= symbol_models(symbols@));
    }
    has_symbol(symbols, symbol)
}

fn finish_functions(functions: &Vec<FunctionInfo>, used: &Vec<SymbolId>) -> (result: Vec<
    FunctionInfo,
>)
    ensures
        function_models(result@) == finished_functions(
            (GrownModel { functions: function_models(functions@), used: views(used@) }),
            functions@.len() as int,
        ),
{
    let mut result: Vec<FunctionInfo> = Vec::new();
    let mut index: usize = 0;
    let ghost grown = GrownModel { functions: function_models(functions@), used: views(used@) };
    proof {
        assert(function_models(result@) =~= Seq::empty());
    }
    while index < functions.len()
        invariant
            index <= functions@.len(),
            grown == (GrownModel { functions: function_models(functions@), used: views(used@) }),
            function_models(result@) == finished_functions(grown, index as int),
        decreases functions@.len() - index,
    {
        let function = &functions[index];
        let ghost before = function_models(result@);
        proof {
            assert(function_models(functions@)[index as int] == function@);
        }
        if !holds_symbol(used, &function.id) {
            let finished = FunctionInfo {
                id: function.id.clone(),
                label: function.label.clone(),
                public: function.public,
                calls: relabel_calls(functions, &function.calls),
                span: function.span.clone(),
            };
            result.push(finished);
            proof {
                assert(finished@ =~= with_relabelled(grown.functions, function@));
                assert(function_models(result@) =~= before.push(finished@));
            }
        }
        index += 1;
    }
    result
}

fn finish_facts(facts: &Vec<LanguageFact>, used: &Vec<SymbolId>) -> (result: Vec<LanguageFact>)
    ensures
        fact_models(result@) == finished_facts(
            fact_models(facts@),
            views(used@),
            facts@.len() as int,
        ),
{
    let mut result: Vec<LanguageFact> = Vec::new();
    let mut index: usize = 0;
    proof {
        assert(fact_models(result@) =~= Seq::empty());
    }
    while index < facts.len()
        invariant
            index <= facts@.len(),
            fact_models(result@) == finished_facts(
                fact_models(facts@),
                views(used@),
                index as int,
            ),
        decreases facts@.len() - index,
    {
        let ghost before = fact_models(result@);
        proof {
            assert(fact_models(facts@)[index as int] == facts@[index as int]@);
        }
        if !holds_symbol(used, &facts[index].subject) {
            result.push(facts[index].clone());
            proof {
                assert(fact_models(result@) =~= before.push(facts@[index as int]@));
            }
        }
        index += 1;
    }
    result
}

/// Adds the instances of generic functions of the source that calls ask for,
/// and removes the templates that these were made of.
pub fn synthesize_referenced_generic_instances(
    functions: &mut Vec<FunctionInfo>,
    facts: &mut Vec<LanguageFact>,
    templates: &Vec<FunctionInfo>,
    template_facts: &Vec<LanguageFact>,
)
    ensures
        (function_models(final(functions)@), fact_models(final(facts)@)) == with_instances(
            function_models(old(functions)@),
            fact_models(old(facts)@),
            function_models(templates@),
            fact_models(template_facts@),
        ),
{
    if !any_parameters(template_facts) {
        return ;
    }
    let used = grow(functions, templates, template_facts);
    *functions = finish_functions(functions, &used);
    *facts = finish_facts(facts, &used);
}

} // verus!
