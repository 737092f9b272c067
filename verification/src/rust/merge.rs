//! The merge of what the source says of a program with what rustc says of it.
use crate::files::KnownFile;
use crate::lists::{bind, bound, bound_values_are_found, find_value, value_of, views, Binding};
use crate::model::{
    fact_models, function_models, site_models, symbol_models, AnalysisModel, CallLabel, CallSite,
    CallTarget, FactModel, FileAnalysis, FunctionInfo, FunctionModel, LabelModel, LanguageFact, SiteModel, SymbolId,
    SymbolModel, TargetModel,
};
use crate::names::{callable_part, callable_prefix};
use crate::rust::calls::{
    best_function_template, called_lambda, instance_symbol, merge_calls, merged_calls,
    semantic_symbol, source_closure_for_call, template_of, InputModel, MergeInput,
};
use crate::rust::closures::{
    canonical_program, canonicalize_semantic_closures, is_lambda, is_source_closure,
};
use crate::rust::generics::{synthesize_referenced_generic_instances, with_instances};
use crate::rust::labels::{
    annotate_rust_label, annotated, label_with_callee, replace_label_callee,
};
use crate::rust::markers::{closure_marker, compiler_closure_marker};
use crate::rust::semantic::{
    ProgramModel, SemanticCallTarget, SemanticFunction, SemanticModel, SemanticProgram,
    SemanticTargetModel,
};
use crate::text::same_text;
use vstd::prelude::*;

verus! {

/// Whether the facts say of a symbol that it has something of a kind.
pub open spec fn says(
    facts: Seq<FactModel>,
    subject: SymbolModel,
    kind: Seq<char>,
    key: Option<Seq<char>>,
) -> bool {
    exists|index: int|
        0 <= index < facts.len() && (#[trigger] facts[index]).subject == subject
            && facts[index].kind == kind && match key {
            Some(key) => facts[index].key == key,
            None => true,
        }
}

fn has_fact(
    facts: &Vec<LanguageFact>,
    subject: &SymbolId,
    kind: &str,
    key: Option<&str>,
) -> (result: bool)
    ensures
        result == says(
            fact_models(facts@),
            subject@,
            kind@,
            crate::rust::calls::optional_str(key),
        ),
{
    let mut index: usize = 0;
    while index < facts.len()
        invariant
            index <= facts@.len(),
            forall|k: int|
                0 <= k < index ==> !((#[trigger] fact_models(facts@)[k]).subject == subject@
                    && fact_models(facts@)[k].kind == kind@ && match key {
                    Some(key) => fact_models(facts@)[k].key == key@,
                    None => true,
                }),
        decreases facts@.len() - index,
    {
        let fact = &facts[index];
        proof {
            assert(fact_models(facts@)[index as int] == fact@);
        }
        let keyed = match key {
            Some(key) => same_text(fact.key.as_str(), key),
            None => true,
        };
        if keyed && same_text(fact.kind.as_str(), kind) && fact.subject.same(subject) {
            return true;
        }
        index += 1;
    }
    false
}

/// Whether an instance is that of the function of the source around it. The
/// body of an async function comes as a closure of rustc; other closures of
/// rustc need a closure in the source.
pub open spec fn body_matches(
    function: SemanticModel,
    template: FunctionModel,
    facts: Seq<FactModel>,
) -> bool {
    closure_marker(function.definition_name) is None || is_lambda(template) || says(
        facts,
        template.id,
        "modifier"@,
        Some("async"@),
    )
}

/// Whether an instance is that of the function of the source around it.
pub fn semantic_body_matches_source_template(
    semantic: &SemanticFunction,
    template: &FunctionInfo,
    facts: &Vec<LanguageFact>,
) -> (result: bool)
    ensures
        result == body_matches(semantic@, template@, fact_models(facts@)),
{
    compiler_closure_marker(semantic.definition_name.as_str()).is_none() || is_source_closure(
        template,
    ) || has_fact(facts, &template.id, "modifier", Some("async"))
}

/// The function of the source that an instance belongs to.
pub open spec fn source_of(
    functions: Seq<FunctionModel>,
    facts: Seq<FactModel>,
    known: Seq<(Seq<char>, Seq<char>)>,
    function: SemanticModel,
) -> Option<int> {
    match template_of(functions, function.body_span, known, functions.len() as int) {
        Some(index) => if body_matches(function, functions[index], facts) {
            Some(index)
        } else {
            None
        },
        None => None,
    }
}

fn find_source(
    functions: &Vec<FunctionInfo>,
    facts: &Vec<LanguageFact>,
    identities: &Vec<KnownFile>,
    function: &SemanticFunction,
) -> (result: Option<usize>)
    ensures
        match result {
            Some(index) => index < functions@.len() && source_of(
                function_models(functions@),
                fact_models(facts@),
                views(identities@),
                function@,
            ) == Some(index as int),
            None => source_of(
                function_models(functions@),
                fact_models(facts@),
                views(identities@),
                function@,
            ) is None,
        },
{
    match best_function_template(functions, &function.body_span, identities) {
        Some(index) => {
            proof {
                assert(function_models(functions@)[index as int] == functions@[index as int]@);
            }
            if semantic_body_matches_source_template(function, &functions[index], facts) {
                Some(index)
            } else {
                None
            }
        },
        None => None,
    }
}

/// Whether the source holds a function for an instance with the given key.
pub open spec fn backed(
    functions: Seq<FunctionModel>,
    facts: Seq<FactModel>,
    known: Seq<(Seq<char>, Seq<char>)>,
    semantic: Seq<SemanticModel>,
    key: Seq<char>,
) -> bool {
    exists|index: int|
        0 <= index < semantic.len() && (#[trigger] semantic[index]).key == key && source_of(
            functions,
            facts,
            known,
            semantic[index],
        ) is Some
}

fn is_backed(
    functions: &Vec<FunctionInfo>,
    facts: &Vec<LanguageFact>,
    identities: &Vec<KnownFile>,
    semantic: &Vec<SemanticFunction>,
    key: &str,
) -> (result: bool)
    ensures
        result == backed(
            function_models(functions@),
            fact_models(facts@),
            views(identities@),
            views(semantic@),
            key@,
        ),
{
    let mut index: usize = 0;
    while index < semantic.len()
        invariant
            index <= semantic@.len(),
            forall|k: int|
                0 <= k < index ==> !((#[trigger] views(semantic@)[k]).key == key@ && source_of(
                    function_models(functions@),
                    fact_models(facts@),
                    views(identities@),
                    views(semantic@)[k],
                ) is Some),
        decreases semantic@.len() - index,
    {
        proof {
            assert(views(semantic@)[index as int] == semantic@[index as int]@);
        }
        if same_text(semantic[index].key.as_str(), key) && find_source(
            functions,
            facts,
            identities,
            &semantic[index],
        ).is_some() {
            return true;
        }
        index += 1;
    }
    false
}

/// The target of an instance that makes one call and does nothing else that
/// rustc reports.
pub open spec fn only_target(function: SemanticModel) -> Option<SemanticTargetModel> {
    if function.calls.len() == 1 {
        Some(function.calls[0].target)
    } else {
        None
    }
}

/// The dynamic targets that the first `count` instances without source pass
/// on to directly.
pub open spec fn first_forwarders(
    functions: Seq<FunctionModel>,
    facts: Seq<FactModel>,
    known: Seq<(Seq<char>, Seq<char>)>,
    semantic: Seq<SemanticModel>,
    count: int,
) -> Seq<(Seq<char>, SemanticTargetModel)>
    decreases count,
{
    if count <= 0 {
        Seq::empty()
    } else {
        let before = first_forwarders(functions, facts, known, semantic, count - 1);
        let function = semantic[count - 1];
        match only_target(function) {
            Some(target) => if target is Dynamic && !backed(
                functions,
                facts,
                known,
                semantic,
                function.key,
            ) {
                bound(before, function.key, target)
            } else {
                before
            },
            None => before,
        }
    }
}

/// The forwarders, with an instance that passes on to one of them.
pub open spec fn forward_step(
    functions: Seq<FunctionModel>,
    facts: Seq<FactModel>,
    known: Seq<(Seq<char>, Seq<char>)>,
    semantic: Seq<SemanticModel>,
    forwarders: Seq<(Seq<char>, SemanticTargetModel)>,
    function: SemanticModel,
) -> Seq<(Seq<char>, SemanticTargetModel)> {
    if backed(functions, facts, known, semantic, function.key) || value_of(
        forwarders,
        function.key,
    ) is Some {
        forwarders
    } else {
        match only_target(function) {
            Some(SemanticTargetModel::Direct { key, display }) => match value_of(forwarders, key) {
                Some(target) => bound(forwarders, function.key, target),
                None => forwarders,
            },
            _ => forwarders,
        }
    }
}

/// The forwarders, after the first `count` instances were looked at once.
pub open spec fn forward_pass(
    functions: Seq<FunctionModel>,
    facts: Seq<FactModel>,
    known: Seq<(Seq<char>, Seq<char>)>,
    semantic: Seq<SemanticModel>,
    forwarders: Seq<(Seq<char>, SemanticTargetModel)>,
    count: int,
) -> Seq<(Seq<char>, SemanticTargetModel)>
    decreases count,
{
    if count <= 0 {
        forwarders
    } else {
        forward_step(
            functions,
            facts,
            known,
            semantic,
            forward_pass(functions, facts, known, semantic, forwarders, count - 1),
            semantic[count - 1],
        )
    }
}

/// How many of the first `count` instances are no forwarders.
pub open spec fn missing(
    semantic: Seq<SemanticModel>,
    forwarders: Seq<(Seq<char>, SemanticTargetModel)>,
    count: int,
) -> nat
    decreases count,
{
    if count <= 0 {
        0
    } else {
        missing(semantic, forwarders, count - 1) + if value_of(
            forwarders,
            semantic[count - 1].key,
        ) is Some {
            0nat
        } else {
            1nat
        }
    }
}

proof fn binding_leaves_fewer(
    semantic: Seq<SemanticModel>,
    forwarders: Seq<(Seq<char>, SemanticTargetModel)>,
    key: Seq<char>,
    target: SemanticTargetModel,
    count: int,
)
    requires
        0 <= count <= semantic.len(),
        value_of(forwarders, key) is None,
    ensures
        missing(semantic, bound(forwarders, key, target), count) <= missing(
            semantic,
            forwarders,
            count,
        ),
        (exists|index: int| 0 <= index < count && (#[trigger] semantic[index]).key == key)
            ==> missing(semantic, bound(forwarders, key, target), count) < missing(
            semantic,
            forwarders,
            count,
        ),
    decreases count,
{
    if count > 0 {
        binding_leaves_fewer(semantic, forwarders, key, target, count - 1);
        bound_values_are_found(forwarders, key, target, semantic[count - 1].key);
    }
}

/// The forwarders, after instances that pass on to forwarders were added
/// until there were no more.
pub open spec fn forward_all(
    functions: Seq<FunctionModel>,
    facts: Seq<FactModel>,
    known: Seq<(Seq<char>, Seq<char>)>,
    semantic: Seq<SemanticModel>,
    forwarders: Seq<(Seq<char>, SemanticTargetModel)>,
) -> Seq<(Seq<char>, SemanticTargetModel)>
    decreases missing(semantic, forwarders, semantic.len() as int),
{
    let next = forward_pass(
        functions,
        facts,
        known,
        semantic,
        forwarders,
        semantic.len() as int,
    );
    if missing(semantic, next, semantic.len() as int) < missing(
        semantic,
        forwarders,
        semantic.len() as int,
    ) {
        forward_all(functions, facts, known, semantic, next)
    } else {
        forwarders
    }
}

/// The dynamic targets that instances without source only pass on to.
pub open spec fn forwarders_of(
    functions: Seq<FunctionModel>,
    facts: Seq<FactModel>,
    known: Seq<(Seq<char>, Seq<char>)>,
    semantic: Seq<SemanticModel>,
) -> Seq<(Seq<char>, SemanticTargetModel)> {
    forward_all(
        functions,
        facts,
        known,
        semantic,
        first_forwarders(functions, facts, known, semantic, semantic.len() as int),
    )
}

fn find_first_forwarders(
    functions: &Vec<FunctionInfo>,
    facts: &Vec<LanguageFact>,
    identities: &Vec<KnownFile>,
    semantic: &Vec<SemanticFunction>,
) -> (result: Vec<Binding<SemanticCallTarget>>)
    ensures
        views(result@) == first_forwarders(
            function_models(functions@),
            fact_models(facts@),
            views(identities@),
            views(semantic@),
            semantic@.len() as int,
        ),
{
    let mut result: Vec<Binding<SemanticCallTarget>> = Vec::new();
    let mut index: usize = 0;
    proof {
        assert(views(result@) =~= Seq::empty());
    }
    while index < semantic.len()
        invariant
            index <= semantic@.len(),
            views(result@) == first_forwarders(
                function_models(functions@),
                fact_models(facts@),
                views(identities@),
                views(semantic@),
                index as int,
            ),
        decreases semantic@.len() - index,
    {
        let function = &semantic[index];
        proof {
            assert(views(semantic@)[index as int] == function@);
        }
        if function.calls.len() == 1 {
            let target = &function.calls[0].target;
            proof {
                assert(function@.calls[0] == function.calls@[0]@);
            }
            let dynamic = match target {
                SemanticCallTarget::Dynamic { .. } => true,
                _ => false,
            };
            if dynamic && !is_backed(
                functions,
                facts,
                identities,
                semantic,
                function.key.as_str(),
            ) {
                bind(&mut result, function.key.clone(), target.clone());
            }
        }
        index += 1;
    }
    result
}

#[verifier::rlimit(30)]
fn run_forward_pass(
    functions: &Vec<FunctionInfo>,
    facts: &Vec<LanguageFact>,
    identities: &Vec<KnownFile>,
    semantic: &Vec<SemanticFunction>,
    forwarders: &mut Vec<Binding<SemanticCallTarget>>,
) -> (changed: bool)
    ensures
        views(final(forwarders)@) == forward_pass(
            function_models(functions@),
            fact_models(facts@),
            views(identities@),
            views(semantic@),
            views(old(forwarders)@),
            semantic@.len() as int,
        ),
        changed == (missing(
            views(semantic@),
            views(final(forwarders)@),
            semantic@.len() as int,
        ) < missing(views(semantic@), views(old(forwarders)@), semantic@.len() as int)),
        !changed ==> views(final(forwarders)@) == views(old(forwarders)@),
{
    let mut changed = false;
    let ghost start = views(forwarders@);
    let ghost total = semantic@.len() as int;
    let mut index: usize = 0;
    while index < semantic.len()
        invariant
            index <= semantic@.len(),
            total == semantic@.len(),
            views(forwarders@) == forward_pass(
                function_models(functions@),
                fact_models(facts@),
                views(identities@),
                views(semantic@),
                start,
                index as int,
            ),
            changed ==> missing(views(semantic@), views(forwarders@), total) < missing(
                views(semantic@),
                start,
                total,
            ),
            !changed ==> views(forwarders@) == start,
        decreases semantic@.len() - index,
    {
        let function = &semantic[index];
        let ghost before = views(forwarders@);
        proof {
            assert(views(semantic@)[index as int] == function@);
        }
        if function.calls.len() == 1 {
            proof {
                assert(function@.calls[0] == function.calls@[0]@);
            }
            match &function.calls[0].target {
                SemanticCallTarget::Direct { key, display: _ } => {
                    let found = match find_value(forwarders, key.as_str()) {
                        Some(target) => Some(target.clone()),
                        None => None,
                    };
                    match found {
                        Some(target) => {
                            if find_value(forwarders, function.key.as_str()).is_none()
                                && !is_backed(
                                functions,
                                facts,
                                identities,
                                semantic,
                                function.key.as_str(),
                            ) {
                                proof {
                                    binding_leaves_fewer(
                                        views(semantic@),
                                        before,
                                        function@.key,
                                        target@,
                                        total,
                                    );
                                }
                                bind(forwarders, function.key.clone(), target);
                                changed = true;
                            }
                        },
                        None => {},
                    }
                },
                _ => {},
            }
        }
        index += 1;
    }
    changed
}

/// The dynamic targets that instances without source only pass on to.
pub fn transparent_dispatch_forwarders(
    functions: &Vec<FunctionInfo>,
    facts: &Vec<LanguageFact>,
    identities: &Vec<KnownFile>,
    semantic: &Vec<SemanticFunction>,
) -> (result: Vec<Binding<SemanticCallTarget>>)
    ensures
        views(result@) == forwarders_of(
            function_models(functions@),
            fact_models(facts@),
            views(identities@),
            views(semantic@),
        ),
{
    let mut forwarders = find_first_forwarders(functions, facts, identities, semantic);
    loop
        invariant
            forward_all(
                function_models(functions@),
                fact_models(facts@),
                views(identities@),
                views(semantic@),
                views(forwarders@),
            ) == forwarders_of(
                function_models(functions@),
                fact_models(facts@),
                views(identities@),
                views(semantic@),
            ),
        decreases missing(views(semantic@), views(forwarders@), semantic@.len() as int),
    {
        let changed = run_forward_pass(functions, facts, identities, semantic, &mut forwarders);
        if !changed {
            return forwarders;
        }
    }
}

/// The facts among the first `count` about a symbol.
pub open spec fn facts_about(facts: Seq<FactModel>, subject: SymbolModel, count: int) -> Seq<
    FactModel,
>
    decreases count,
{
    if count <= 0 {
        Seq::empty()
    } else if facts[count - 1].subject == subject {
        facts_about(facts, subject, count - 1).push(facts[count - 1])
    } else {
        facts_about(facts, subject, count - 1)
    }
}

/// The facts, said of another symbol.
pub open spec fn said_of(facts: Seq<FactModel>, subject: SymbolModel) -> Seq<FactModel> {
    facts.map_values(|fact: FactModel| FactModel { subject, ..fact })
}

/// The facts about `subject`, said of `other`.
fn facts_said_of(facts: &Vec<LanguageFact>, subject: &SymbolId, other: &SymbolId) -> (result: Vec<
    LanguageFact,
>)
    ensures
        fact_models(result@) == said_of(
            facts_about(fact_models(facts@), subject@, facts@.len() as int),
            other@,
        ),
{
    let mut result: Vec<LanguageFact> = Vec::new();
    let mut index: usize = 0;
    proof {
        assert(fact_models(result@) =~= said_of(
            facts_about(fact_models(facts@), subject@, 0),
            other@,
        ));
    }
    while index < facts.len()
        invariant
            index <= facts@.len(),
            fact_models(result@) == said_of(
                facts_about(fact_models(facts@), subject@, index as int),
                other@,
            ),
        decreases facts@.len() - index,
    {
        let fact = &facts[index];
        let ghost before = fact_models(result@);
        let ghost earlier = facts_about(fact_models(facts@), subject@, index as int);
        proof {
            assert(fact_models(facts@)[index as int] == fact@);
        }
        if fact.subject.same(subject) {
            let copy = LanguageFact {
                subject: other.clone(),
                namespace: fact.namespace.clone(),
                kind: fact.kind.clone(),
                key: fact.key.clone(),
                value: fact.value.clone(),
                span: fact.span.clone(),
            };
            result.push(copy);
            proof {
                assert(fact_models(result@) =~= before.push(copy@));
                assert(said_of(earlier.push(fact@), other@) =~= said_of(earlier, other@).push(
                    copy@,
                ));
            }
        }
        index += 1;
    }
    result
}

/// What is left when functions of the source and instances are merged: the
/// functions, their facts, the closures that are still needed, and the
/// functions of the source that rustc has instances of.
#[verifier::ext_equal]
pub struct MergedModel {
    pub functions: Seq<FunctionModel>,
    pub facts: Seq<FactModel>,
    pub required: Seq<SymbolModel>,
    pub matched: Seq<SymbolModel>,
}

/// What is left when functions of the source and instances are merged.
pub struct MergedFunctions {
    pub functions: Vec<FunctionInfo>,
    pub facts: Vec<LanguageFact>,
    pub required: Vec<SymbolId>,
    pub matched: Vec<SymbolId>,
}

impl View for MergedFunctions {
    type V = MergedModel;

    open spec fn view(&self) -> MergedModel {
        MergedModel {
            functions: function_models(self.functions@),
            facts: fact_models(self.facts@),
            required: views(self.required@),
            matched: views(self.matched@),
        }
    }
}

/// A function of the source as an instance of it.
pub open spec fn merged_function(
    input: InputModel,
    template: FunctionModel,
    function: SemanticModel,
) -> FunctionModel {
    let default = label_with_callee(template.label, function.display).default;
    FunctionModel {
        id: instance_symbol(function.key),
        label: LabelModel {
            default,
            typed: Some(annotated(default, function.parameter_types)),
        },
        public: template.public,
        calls: merged_calls(input, template, function, template.calls.len() as int).calls,
        span: template.span,
    }
}

/// The first `count` instances merged with the functions of the source.
pub open spec fn merged_functions(input: InputModel, count: int) -> MergedModel
    decreases count,
{
    if count <= 0 {
        MergedModel {
            functions: Seq::empty(),
            facts: Seq::empty(),
            required: Seq::empty(),
            matched: Seq::empty(),
        }
    } else {
        let before = merged_functions(input, count - 1);
        let function = input.semantic[count - 1];
        match source_of(input.functions, input.facts, input.known, function) {
            Some(index) => {
                let template = input.functions[index];
                MergedModel {
                    functions: before.functions.push(merged_function(input, template, function)),
                    facts: before.facts + said_of(
                        facts_about(input.facts, template.id, input.facts.len() as int),
                        instance_symbol(function.key),
                    ),
                    required: before.required + merged_calls(
                        input,
                        template,
                        function,
                        template.calls.len() as int,
                    ).required,
                    matched: before.matched.push(template.id),
                }
            },
            None => before,
        }
    }
}

fn merge_function(input: &MergeInput, template: &FunctionInfo, function: &SemanticFunction) -> (
    result: (FunctionInfo, Vec<SymbolId>))
    ensures
        result.0@ == merged_function(input@, template@, function@),
        views(result.1@) == merged_calls(
            input@,
            template@,
            function@,
            template@.calls.len() as int,
        ).required,
{
    let (calls, required) = merge_calls(input, template, function);
    let label = replace_label_callee(&template.label, function.display.as_str());
    let typed = annotate_rust_label(label.default.as_str(), &function.parameter_types);
    let merged = FunctionInfo {
        id: semantic_symbol(function.key.clone()),
        label: CallLabel { default: label.default, typed: Some(typed) },
        public: template.public,
        calls,
        span: template.span.clone(),
    };
    proof {
        assert(merged@ =~= merged_function(input@, template@, function@));
    }
    (merged, required)
}

fn merge_functions(input: &MergeInput) -> (result: MergedFunctions)
    ensures
        result@ == merged_functions(input@, input@.semantic.len() as int),
{
    let mut merged = MergedFunctions {
        functions: Vec::new(),
        facts: Vec::new(),
        required: Vec::new(),
        matched: Vec::new(),
    };
    let mut index: usize = 0;
    proof {
        assert(merged@ =~= merged_functions(input@, 0));
    }
    while index < input.semantic.len()
        invariant
            index <= input.semantic@.len(),
            merged@ == merged_functions(input@, index as int),
        decreases input.semantic@.len() - index,
    {
        let function = &input.semantic[index];
        let ghost before = merged@;
        proof {
            assert(input@.semantic[index as int] == function@);
        }
        match find_source(input.functions, input.facts, input.identities, function) {
            Some(found) => {
                let template = &input.functions[found];
                proof {
                    assert(input@.functions[found as int] == template@);
                }
                let (info, mut more) = merge_function(input, template, function);
                let mut facts = facts_said_of(input.facts, &template.id, &info.id);
                let ghost needed = views(more@);
                let ghost said = fact_models(facts@);
                merged.required.append(&mut more);
                merged.facts.append(&mut facts);
                merged.matched.push(template.id.clone());
                merged.functions.push(info);
                proof {
                    assert(function_models(merged.functions@) =~= before.functions.push(info@));
                    assert(fact_models(merged.facts@) =~= before.facts + said);
                    assert(views(merged.required@) =~= before.required + needed);
                    assert(views(merged.matched@) =~= before.matched.push(template@.id));
                }
            },
            None => {},
        }
        index += 1;
    }
    merged
}

/// The first `count` calls of a closure that is kept, with the closures of the
/// source that they reach, and these closures.
pub open spec fn kept_calls(
    functions: Seq<FunctionModel>,
    owner: FunctionModel,
    count: int,
) -> (Seq<SiteModel>, Seq<SymbolModel>)
    decreases count,
{
    if count <= 0 {
        (Seq::empty(), Seq::empty())
    } else {
        let (calls, required) = kept_calls(functions, owner, count - 1);
        let call = owner.calls[count - 1];
        match called_lambda(functions, owner.id, call.syntax) {
            Some(index) if call.target is Unresolved => (
                calls.push(
                    SiteModel {
                        target: TargetModel::Direct(functions[index].id),
                        label: label_with_callee(
                            call.label,
                            callable_part(functions[index].label.default),
                        ),
                        ..call
                    },
                ),
                required.push(functions[index].id),
            ),
            _ => (calls.push(call), required),
        }
    }
}

fn keep_calls(functions: &Vec<FunctionInfo>, owner: &FunctionInfo) -> (result: (
    Vec<CallSite>,
    Vec<SymbolId>,
))
    ensures
        (site_models(result.0@), views(result.1@)) == kept_calls(
            function_models(functions@),
            owner@,
            owner@.calls.len() as int,
        ),
{
    let mut calls: Vec<CallSite> = Vec::new();
    let mut required: Vec<SymbolId> = Vec::new();
    let mut index: usize = 0;
    proof {
        assert(site_models(calls@) =~= Seq::empty());
        assert(views(required@) =~= Seq::empty());
    }
    while index < owner.calls.len()
        invariant
            index <= owner.calls@.len(),
            (site_models(calls@), views(required@)) == kept_calls(
                function_models(functions@),
                owner@,
                index as int,
            ),
        decreases owner.calls@.len() - index,
    {
        let call = &owner.calls[index];
        let ghost before = site_models(calls@);
        let ghost needed = views(required@);
        proof {
            assert(owner@.calls[index as int] == call@);
        }
        let unresolved = match &call.target {
            CallTarget::Unresolved => true,
            _ => false,
        };
        let found = if unresolved {
            source_closure_for_call(owner, call, functions)
        } else {
            None
        };
        match found {
            Some(closure) => {
                let nested = &functions[closure];
                proof {
                    assert(function_models(functions@)[closure as int] == nested@);
                }
                let callee = callable_prefix(nested.label.default.as_str());
                let kept = CallSite {
                    id: call.id.clone(),
                    syntax: call.syntax.clone(),
                    target: CallTarget::Direct(nested.id.clone()),
                    label: replace_label_callee(&call.label, callee.as_str()),
                    span: call.span.clone(),
                };
                calls.push(kept);
                required.push(nested.id.clone());
                proof {
                    assert(site_models(calls@) =~= before.push(kept@));
                    assert(views(required@) =~= needed.push(nested@.id));
                }
            },
            None => {
                calls.push(call.clone());
                proof {
                    assert(site_models(calls@) =~= before.push(call@));
                }
            },
        }
        index += 1;
    }
    (calls, required)
}

/// What is left when, of the first `count` functions of the source, the
/// closures that are needed and the generic functions without instances are
/// kept.
pub open spec fn with_kept(
    functions: Seq<FunctionModel>,
    facts: Seq<FactModel>,
    merged: MergedModel,
    count: int,
) -> MergedModel
    decreases count,
{
    if count <= 0 {
        merged
    } else {
        let before = with_kept(functions, facts, merged, count - 1);
        let function = functions[count - 1];
        let needed = before.required.contains(function.id);
        let open = says(facts, function.id, "generic-parameter"@, None) && !before.matched.contains(
            function.id,
        );
        let kept = kept_calls(functions, function, function.calls.len() as int);
        if !needed && !open {
            before
        } else {
            MergedModel {
                functions: before.functions.push(
                    if needed {
                        FunctionModel { calls: kept.0, ..function }
                    } else {
                        function
                    },
                ),
                facts: if open {
                    before.facts + facts_about(facts, function.id, facts.len() as int)
                } else {
                    before.facts
                },
                required: if needed {
                    before.required + kept.1
                } else {
                    before.required
                },
                matched: before.matched,
            }
        }
    }
}

fn holds_symbol(symbols: &Vec<SymbolId>, symbol: &SymbolId) -> (result: bool)
    ensures
        result == views(symbols@).contains(symbol@),
{
    proof {
        assert(views(symbols@) =~= crate::model::symbol_models(symbols@));
    }
    crate::sets::has_symbol(symbols, symbol)
}

fn keep_functions(
    functions: &Vec<FunctionInfo>,
    facts: &Vec<LanguageFact>,
    merged: &mut MergedFunctions,
)
    ensures
        final(merged)@ == with_kept(
            function_models(functions@),
            fact_models(facts@),
            old(merged)@,
            functions@.len() as int,
        ),
{
    let ghost start = merged@;
    let mut index: usize = 0;
    while index < functions.len()
        invariant
            index <= functions@.len(),
            merged@ == with_kept(
                function_models(functions@),
                fact_models(facts@),
                start,
                index as int,
            ),
        decreases functions@.len() - index,
    {
        let function = &functions[index];
        let ghost before = merged@;
        proof {
            assert(function_models(functions@)[index as int] == function@);
        }
        let needed = holds_symbol(&merged.required, &function.id);
        let open = has_fact(facts, &function.id, "generic-parameter", None) && !holds_symbol(
            &merged.matched,
            &function.id,
        );
        if needed || open {
            let mut preserved = function.clone();
            if needed {
                let (calls, mut more) = keep_calls(functions, function);
                let ghost added = views(more@);
                preserved.calls = calls;
                merged.required.append(&mut more);
                proof {
                    assert(views(merged.required@) =~= before.required + added);
                }
            }
            if open {
                let mut said = facts_said_of(facts, &function.id, &function.id);
                proof {
                    let about = facts_about(fact_models(facts@), function@.id, facts@.len() as int);
                    facts_about_have_subject(
                        fact_models(facts@),
                        function@.id,
                        facts@.len() as int,
                    );
                    assert(said_of(about, function@.id) =~= about);
                    assert(fact_models(said@) == about);
                }
                let ghost added = fact_models(said@);
                merged.facts.append(&mut said);
                proof {
                    assert(fact_models(merged.facts@) =~= before.facts + added);
                }
            }
            merged.functions.push(preserved);
            proof {
                assert(function_models(merged.functions@) =~= before.functions.push(preserved@));
            }
        }
        index += 1;
    }
}

proof fn facts_about_have_subject(facts: Seq<FactModel>, subject: SymbolModel, count: int)
    requires
        0 <= count <= facts.len(),
    ensures
        forall|index: int|
            0 <= index < facts_about(facts, subject, count).len() ==> (#[trigger] facts_about(
                facts,
                subject,
                count,
            )[index]).subject == subject,
    decreases count,
{
    if count > 0 {
        facts_about_have_subject(facts, subject, count - 1);
    }
}

/// The functions of the source merged with the instances of rustc, and the
/// functions of the source that are kept without an instance.
pub open spec fn merged_program(
    functions: Seq<FunctionModel>,
    facts: Seq<FactModel>,
    known: Seq<(Seq<char>, Seq<char>)>,
    semantic: Seq<SemanticModel>,
) -> MergedModel {
    let input = InputModel {
        functions,
        facts,
        semantic,
        known,
        forwarders: forwarders_of(functions, facts, known, semantic),
    };
    with_kept(
        functions,
        facts,
        merged_functions(input, semantic.len() as int),
        functions.len() as int,
    )
}

/// The functions of the source merged with the instances of rustc, and the
/// functions of the source that are kept without an instance.
pub fn merge_instances(
    functions: &Vec<FunctionInfo>,
    facts: &Vec<LanguageFact>,
    identities: &Vec<KnownFile>,
    semantic: &Vec<SemanticFunction>,
) -> (result: MergedFunctions)
    ensures
        result@ == merged_program(
            function_models(functions@),
            fact_models(facts@),
            views(identities@),
            views(semantic@),
        ),
{
    let forwarders = transparent_dispatch_forwarders(functions, facts, identities, semantic);
    let input = MergeInput { functions, facts, semantic, identities, forwarders: &forwarders };
    let mut merged = merge_functions(&input);
    keep_functions(functions, facts, &mut merged);
    merged
}

/// What the source says of a program, merged with what rustc says of it.
pub open spec fn merged_analysis(
    syntax: AnalysisModel,
    program: ProgramModel,
    known: Seq<(Seq<char>, Seq<char>)>,
) -> AnalysisModel {
    let semantic = canonical_program(syntax.functions, program, known).functions;
    let merged = merged_program(syntax.functions, syntax.facts, known, semantic);
    let (functions, facts) = with_instances(
        merged.functions,
        merged.facts,
        syntax.functions,
        syntax.facts,
    );
    AnalysisModel {
        functions,
        facts,
        source_files: syntax.source_files,
        roots: Seq::empty(),
    }
}

/// What the source says of a program, merged with what rustc says of it. The
/// file identities are what the file system resolves the paths in both to.
pub fn merge_semantic_program(
    syntax: FileAnalysis,
    semantic: SemanticProgram,
    file_identities: &Vec<KnownFile>,
) -> (result: FileAnalysis)
    ensures
        result@ == merged_analysis(syntax@, semantic@, views(file_identities@)),
{
    let mut program = semantic;
    canonicalize_semantic_closures(&syntax.functions, &mut program, file_identities);
    let merged = merge_instances(
        &syntax.functions,
        &syntax.facts,
        file_identities,
        &program.functions,
    );
    let mut functions = merged.functions;
    let mut facts = merged.facts;
    synthesize_referenced_generic_instances(
        &mut functions,
        &mut facts,
        &syntax.functions,
        &syntax.facts,
    );
    let roots: Vec<SymbolId> = Vec::new();
    proof {
        assert(symbol_models(roots@) =~= Seq::empty());
    }
    FileAnalysis { functions, facts, source_files: syntax.source_files, roots }
}

} // verus!
