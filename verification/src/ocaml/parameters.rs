//! The names that the parameters of OCaml functions bind.
use crate::lists::views;
use crate::model::{FactModel, LanguageFact, SourceSpan, SpanModel, SymbolId, SymbolModel};
use crate::ocaml::bindings::{
    bindings_of, collect_ocaml_parameter_bindings, BindingModel, OcamlParameterBinding,
    OcamlParameterKind, OcamlProjection, StepModel,
};
use crate::ocaml::scopes::{facts_on, find_facts_on};
use crate::ocaml::symbols::optional_position;
use crate::ocaml::syntax::optional_node;
use crate::spans::{contains_span, span_contains};
use crate::text::{same_text, split_once, split_text_once, texts};
use vstd::prelude::*;

verus! {

/// The names that the first `count` parameters bind.
pub open spec fn plain_parameters(parameters: Seq<FactModel>, count: int) -> Seq<BindingModel>
    decreases count,
{
    if count <= 0 {
        Seq::empty()
    } else {
        plain_parameters(parameters, count - 1) + bindings_of(
            parameters[count - 1].key,
            (count - 1) as usize,
            Seq::empty(),
        )
    }
}

fn make_plain_parameters(parameters: &Vec<LanguageFact>) -> (result: Vec<OcamlParameterBinding>)
    ensures
        views(result@) == plain_parameters(views(parameters@), parameters@.len() as int),
{
    let whole: Vec<OcamlProjection> = Vec::new();
    let mut result: Vec<OcamlParameterBinding> = Vec::new();
    let mut index: usize = 0;
    proof {
        assert(views(result@) =~= Seq::empty());
        assert(views(whole@) =~= Seq::<StepModel>::empty());
    }
    while index < parameters.len()
        invariant
            index <= parameters@.len(),
            views(whole@) == Seq::<StepModel>::empty(),
            views(result@) == plain_parameters(views(parameters@), index as int),
        decreases parameters@.len() - index,
    {
        proof {
            assert(views(parameters@)[index as int] == parameters@[index as int]@);
        }
        let ghost before = views(result@);
        let mut more = collect_ocaml_parameter_bindings(
            parameters[index].key.as_str(),
            index,
            &whole,
        );
        let ghost added = views(more@);
        result.append(&mut more);
        proof {
            assert(views(result@) =~= before + added);
        }
        index += 1;
    }
    result
}

/// The first binding, from `index` on, of a name in a whole function.
pub open spec fn whole_binding(bindings: Seq<BindingModel>, name: Seq<char>, index: int) -> Option<
    int,
>
    decreases bindings.len() - index,
{
    if index < 0 || index >= bindings.len() {
        None
    } else if bindings[index].scope is None && bindings[index].name == name {
        Some(index)
    } else {
        whole_binding(bindings, name, index + 1)
    }
}

fn find_whole_binding(bindings: &Vec<OcamlParameterBinding>, name: &str) -> (result: Option<usize>)
    ensures
        optional_node(result) == whole_binding(views(bindings@), name@, 0),
        match result {
            Some(place) => place < bindings@.len(),
            None => true,
        },
{
    let mut index: usize = 0;
    while index < bindings.len()
        invariant
            index <= bindings@.len(),
            whole_binding(views(bindings@), name@, index as int) == whole_binding(
                views(bindings@),
                name@,
                0,
            ),
        decreases bindings@.len() - index,
    {
        proof {
            assert(views(bindings@)[index as int] == bindings@[index as int]@);
        }
        if bindings[index].scope.is_none() && same_text(bindings[index].name.as_str(), name) {
            return Some(index);
        }
        index += 1;
    }
    None
}

/// The first `count` bindings of a refined pattern, as far as they bind the
/// name of the refinement, in its stretch.
pub open spec fn refined_names(bindings: Seq<BindingModel>, fact: FactModel, count: int) -> Seq<
    BindingModel,
>
    decreases count,
{
    if count <= 0 {
        Seq::empty()
    } else {
        let before = refined_names(bindings, fact, count - 1);
        if bindings[count - 1].name == fact.key {
            before.push(BindingModel { scope: Some(fact.span), ..bindings[count - 1] })
        } else {
            before
        }
    }
}

/// What a refinement adds to some bindings: where a name of the whole function
/// is matched against a pattern, the names that the pattern binds.
pub open spec fn refinement(bindings: Seq<BindingModel>, fact: FactModel) -> Seq<BindingModel> {
    match split_once(fact.value, "\n"@) {
        None => Seq::empty(),
        Some((source, pattern)) => match whole_binding(bindings, source, 0) {
            None => Seq::empty(),
            Some(place) => {
                let refined = bindings_of(
                    pattern,
                    bindings[place].argument_index,
                    bindings[place].projection,
                );
                refined_names(refined, fact, refined.len() as int)
            },
        },
    }
}

/// The bindings with those of the first `count` refinements.
pub open spec fn refined_parameters(
    bindings: Seq<BindingModel>,
    refinements: Seq<FactModel>,
    count: int,
) -> Seq<BindingModel>
    decreases count,
{
    if count <= 0 {
        bindings
    } else {
        let before = refined_parameters(bindings, refinements, count - 1);
        before + refinement(before, refinements[count - 1])
    }
}

fn make_refinement(bindings: &Vec<OcamlParameterBinding>, fact: &LanguageFact) -> (result: Vec<
    OcamlParameterBinding,
>)
    ensures
        views(result@) == refinement(views(bindings@), fact@),
{
    let mut result: Vec<OcamlParameterBinding> = Vec::new();
    proof {
        assert(views(result@) =~= Seq::empty());
        reveal_strlit("\n");
    }
    let (source, pattern) = match split_text_once(fact.value.as_str(), "\n") {
        Some(pair) => pair,
        None => {
            return result;
        },
    };
    let place = match find_whole_binding(bindings, source.as_str()) {
        Some(place) => place,
        None => {
            return result;
        },
    };
    proof {
        assert(views(bindings@)[place as int] == bindings@[place as int]@);
    }
    let refined = collect_ocaml_parameter_bindings(
        pattern.as_str(),
        bindings[place].argument_index,
        &bindings[place].projection,
    );
    proof {
        assert(views(refined@).len() == refined@.len());
    }
    let mut index: usize = 0;
    while index < refined.len()
        invariant
            index <= refined@.len(),
            views(result@) == refined_names(views(refined@), fact@, index as int),
        decreases refined@.len() - index,
    {
        proof {
            assert(views(refined@)[index as int] == refined@[index as int]@);
        }
        if same_text(refined[index].name.as_str(), fact.key.as_str()) {
            let ghost before = views(result@);
            let mut binding = refined[index].clone();
            binding.scope = Some(fact.span.clone());
            let ghost model = binding@;
            result.push(binding);
            proof {
                assert(views(result@) =~= before.push(model));
            }
        }
        index += 1;
    }
    result
}

/// The names that the parameters of a function bind.
pub open spec fn parameters_of(facts: Seq<FactModel>, id: SymbolModel) -> Seq<BindingModel> {
    let parameters = facts_on(facts, "parameter"@, id, facts.len() as int);
    let refinements = facts_on(facts, "parameter-refinement"@, id, facts.len() as int);
    refined_parameters(
        plain_parameters(parameters, parameters.len() as int),
        refinements,
        refinements.len() as int,
    )
}

/// Finds the names that the parameters of a function bind.
pub fn ocaml_parameters(facts: &Vec<LanguageFact>, id: &SymbolId) -> (result: Vec<
    OcamlParameterBinding,
>)
    ensures
        views(result@) == parameters_of(views(facts@), id@),
{
    let parameters = find_facts_on(facts, "parameter", id);
    let refinements = find_facts_on(facts, "parameter-refinement", id);
    let mut result = make_plain_parameters(&parameters);
    let ghost plain = views(result@);
    proof {
        assert(views(facts@).len() == facts@.len());
        assert(views(parameters@).len() == parameters@.len());
        assert(views(refinements@).len() == refinements@.len());
    }
    let mut index: usize = 0;
    while index < refinements.len()
        invariant
            index <= refinements@.len(),
            views(result@) == refined_parameters(plain, views(refinements@), index as int),
        decreases refinements@.len() - index,
    {
        proof {
            assert(views(refinements@)[index as int] == refinements@[index as int]@);
        }
        let ghost before = views(result@);
        let mut more = make_refinement(&result, &refinements[index]);
        let ghost added = views(more@);
        result.append(&mut more);
        proof {
            assert(views(result@) =~= before + added);
        }
        index += 1;
    }
    result
}

/// Whether a binding holds at a place.
pub open spec fn holds_at(binding: BindingModel, position: Option<SpanModel>) -> bool {
    match binding.scope {
        Some(scope) => match position {
            Some(position) => contains_span(scope, position),
            None => false,
        },
        None => true,
    }
}

/// Whether a binding holds at a place.
pub fn binding_holds_at(binding: &OcamlParameterBinding, position: Option<&SourceSpan>) -> (result: bool)
    ensures
        result == holds_at(binding@, optional_position(position)),
{
    match &binding.scope {
        Some(scope) => match position {
            Some(position) => span_contains(scope, position),
            None => false,
        },
        None => true,
    }
}

/// Whether a call of a path at a place calls what a binding stands for.
pub open spec fn calls_binding(
    parts: Seq<Seq<char>>,
    binding: BindingModel,
    position: Option<SpanModel>,
) -> bool {
    holds_at(binding, position) && match binding.kind {
        OcamlParameterKind::Value => parts.len() == 1 && parts[0] == binding.name,
        OcamlParameterKind::Module => parts.len() > 1 && parts[0] == binding.name,
    }
}

/// The first binding, from `index` on, that a call of a path calls.
pub open spec fn called_from(
    parts: Seq<Seq<char>>,
    bindings: Seq<BindingModel>,
    position: Option<SpanModel>,
    index: int,
) -> Option<int>
    decreases bindings.len() - index,
{
    if index < 0 || index >= bindings.len() {
        None
    } else if calls_binding(parts, bindings[index], position) {
        Some(index)
    } else {
        called_from(parts, bindings, position, index + 1)
    }
}

/// The binding that a call of a path calls.
pub open spec fn called_binding(
    parts: Seq<Seq<char>>,
    bindings: Seq<BindingModel>,
    position: Option<SpanModel>,
) -> Option<int> {
    called_from(parts, bindings, position, 0)
}

/// Finds the binding that a call of a path calls.
pub fn called_ocaml_parameter_index(
    parts: &Vec<String>,
    bindings: &Vec<OcamlParameterBinding>,
    position: Option<&SourceSpan>,
) -> (result: Option<usize>)
    ensures
        optional_node(result) == called_binding(
            texts(parts@),
            views(bindings@),
            optional_position(position),
        ),
        match result {
            Some(place) => place < bindings@.len(),
            None => true,
        },
{
    let ghost place = optional_position(position);
    let mut index: usize = 0;
    proof {
        assert(texts(parts@).len() == parts@.len());
    }
    while index < bindings.len()
        invariant
            index <= bindings@.len(),
            place == optional_position(position),
            texts(parts@).len() == parts@.len(),
            called_from(texts(parts@), views(bindings@), place, index as int) == called_binding(
                texts(parts@),
                views(bindings@),
                place,
            ),
        decreases bindings@.len() - index,
    {
        let binding = &bindings[index];
        proof {
            assert(views(bindings@)[index as int] == bindings@[index as int]@);
            if parts@.len() > 0 {
                assert(texts(parts@)[0] == parts@[0]@);
            }
        }
        let counts = match binding.kind {
            OcamlParameterKind::Value => parts.len() == 1,
            OcamlParameterKind::Module => parts.len() > 1,
        };
        if binding_holds_at(binding, position) && counts && same_text(
            parts[0].as_str(),
            binding.name.as_str(),
        ) {
            return Some(index);
        }
        index += 1;
    }
    None
}

/// The first binding of a kind and a name, from `index` on; at a place, if
/// `scoped`.
pub open spec fn kind_from(
    bindings: Seq<BindingModel>,
    kind: OcamlParameterKind,
    name: Seq<char>,
    scoped: bool,
    position: Option<SpanModel>,
    index: int,
) -> Option<int>
    decreases bindings.len() - index,
{
    if index < 0 || index >= bindings.len() {
        None
    } else if bindings[index].kind == kind && bindings[index].name == name && (!scoped || holds_at(
        bindings[index],
        position,
    )) {
        Some(index)
    } else {
        kind_from(bindings, kind, name, scoped, position, index + 1)
    }
}

/// Finds the first binding of a kind and a name; at a place, if `scoped`.
pub fn find_of_kind(
    bindings: &Vec<OcamlParameterBinding>,
    kind: OcamlParameterKind,
    name: &str,
    scoped: bool,
    position: Option<&SourceSpan>,
) -> (result: Option<usize>)
    ensures
        optional_node(result) == kind_from(
            views(bindings@),
            kind,
            name@,
            scoped,
            optional_position(position),
            0,
        ),
        match result {
            Some(place) => place < bindings@.len(),
            None => true,
        },
{
    let ghost place = optional_position(position);
    let mut index: usize = 0;
    while index < bindings.len()
        invariant
            index <= bindings@.len(),
            place == optional_position(position),
            kind_from(views(bindings@), kind, name@, scoped, place, index as int) == kind_from(
                views(bindings@),
                kind,
                name@,
                scoped,
                place,
                0,
            ),
        decreases bindings@.len() - index,
    {
        let binding = &bindings[index];
        proof {
            assert(views(bindings@)[index as int] == bindings@[index as int]@);
        }
        if binding.kind == kind && same_text(binding.name.as_str(), name) && (!scoped
            || binding_holds_at(binding, position)) {
            return Some(index);
        }
        index += 1;
    }
    None
}

/// The values of some facts.
pub open spec fn fact_values(facts: Seq<FactModel>) -> Seq<Seq<char>> {
    facts.map_values(|fact: FactModel| fact.value)
}

/// The expressions that a function may return.
pub open spec fn return_outcomes(facts: Seq<FactModel>, id: SymbolModel) -> Seq<Seq<char>> {
    fact_values(facts_on(facts, "callable-return"@, id, facts.len() as int))
}

/// Finds the expressions that a function may return.
pub fn ocaml_return_outcomes(facts: &Vec<LanguageFact>, id: &SymbolId) -> (result: Vec<String>)
    ensures
        texts(result@) == return_outcomes(views(facts@), id@),
{
    let given = find_facts_on(facts, "callable-return", id);
    let mut result: Vec<String> = Vec::new();
    let mut index: usize = 0;
    while index < given.len()
        invariant
            index <= given@.len(),
            result@.len() == index,
            forall|k: int| 0 <= k < index ==> (#[trigger] result@[k])@ == given@[k]@.value,
        decreases given@.len() - index,
    {
        result.push(given[index].value.clone());
        index += 1;
    }
    proof {
        assert(views(facts@).len() == facts@.len());
        assert(texts(result@) =~= fact_values(views(given@)));
    }
    result
}

} // verus!
