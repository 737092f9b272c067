//! The calls of one OCaml source to functions of the same source.
use crate::lists::{copy_list, views};
use crate::model::{
    suffixed, visible_syntax, AnalysisModel, CallLabel, CallSite, CallSyntax, CallTarget,
    FactModel, FileAnalysis, FunctionInfo, FunctionModel, LabelModel, LanguageFact, SiteModel,
    SymbolId, SymbolModel, SyntaxModel, TargetModel,
};
use crate::ocaml::labels::{
    call_arguments, candidate_label, find_first_word, first_word, is_anonymous,
    ocaml_call_arguments, ocaml_candidate_call_label, ocaml_source_name, source_name,
};
use crate::ocaml::local::{add_key, same_key, with_key, GroupKey, KeyModel};
use crate::ocaml::scopes::{fact_speaks_of, local_callable_at, local_function, speaks_of};
use crate::ocaml::symbols::{
    anonymous_callable_symbol_at, anonymous_function, common_id, find_common_id,
    find_function_at, function_at, in_range,
};
use crate::ocaml::syntax::{node_list, optional_node};
use crate::paths::{same_place, some_texts};
use crate::spans::{contains_span, span_contains};
use crate::text::{
    concat_texts, rsplit_once, rsplit_text_once, same_list, same_text, starts_with_text,
    substitute_text, substituted, texts,
};
use vstd::prelude::*;

verus! {

/// The group of functions that a fact speaks of.
pub open spec fn fact_key(fact: FactModel) -> KeyModel {
    KeyModel { file: fact.span.file, module: Seq::empty(), name: fact.value }
}

fn make_fact_key(fact: &LanguageFact) -> (result: GroupKey)
    ensures
        result@ == fact_key(fact@),
{
    let module: Vec<String> = Vec::new();
    proof {
        assert(texts(module@) =~= Seq::empty());
    }
    GroupKey { file: fact.span.file.clone(), module, name: fact.value.clone() }
}

/// The groups of functions that can call each other, by the first `count`
/// facts.
pub open spec fn recursive_keys(facts: Seq<FactModel>, count: int) -> Seq<KeyModel>
    decreases count,
{
    if count <= 0 {
        Seq::empty()
    } else {
        let before = recursive_keys(facts, count - 1);
        if facts[count - 1].kind == "recursive-group"@ {
            with_key(before, fact_key(facts[count - 1]))
        } else {
            before
        }
    }
}

fn find_recursive_keys(facts: &Vec<LanguageFact>) -> (result: Vec<GroupKey>)
    ensures
        views(result@) == recursive_keys(views(facts@), facts@.len() as int),
{
    let mut result: Vec<GroupKey> = Vec::new();
    let mut index: usize = 0;
    proof {
        assert(views(result@) =~= Seq::empty());
    }
    while index < facts.len()
        invariant
            index <= facts@.len(),
            views(result@) == recursive_keys(views(facts@), index as int),
        decreases facts@.len() - index,
    {
        proof {
            assert(views(facts@)[index as int] == facts@[index as int]@);
        }
        if same_text(facts[index].kind.as_str(), "recursive-group") {
            add_key(&mut result, make_fact_key(&facts[index]));
        }
        index += 1;
    }
    result
}

/// The first function, from `index` on, that has an identity.
pub open spec fn first_function(functions: Seq<FunctionModel>, id: SymbolModel, index: int) -> Option<
    int,
>
    decreases functions.len() - index,
{
    if index < 0 || index >= functions.len() {
        None
    } else if functions[index].id == id {
        Some(index)
    } else {
        first_function(functions, id, index + 1)
    }
}

fn find_first_function(functions: &Vec<FunctionInfo>, id: &SymbolId) -> (result: Option<usize>)
    ensures
        optional_node(result) == first_function(views(functions@), id@, 0),
        match result {
            Some(place) => place < functions@.len(),
            None => true,
        },
{
    let mut index: usize = 0;
    while index < functions.len()
        invariant
            index <= functions@.len(),
            first_function(views(functions@), id@, index as int) == first_function(
                views(functions@),
                id@,
                0,
            ),
        decreases functions@.len() - index,
    {
        proof {
            assert(views(functions@)[index as int] == functions@[index as int]@);
        }
        if functions[index].id.same(id) {
            return Some(index);
        }
        index += 1;
    }
    None
}

/// The functions of a group, by the first `count` facts.
pub open spec fn group_owners(
    functions: Seq<FunctionModel>,
    facts: Seq<FactModel>,
    key: KeyModel,
    count: int,
) -> Seq<int>
    decreases count,
{
    if count <= 0 {
        Seq::empty()
    } else {
        let before = group_owners(functions, facts, key, count - 1);
        let fact = facts[count - 1];
        if fact.kind == "recursive-group"@ && same_key(fact_key(fact), key) {
            match first_function(functions, fact.subject, 0) {
                Some(place) => before.push(place),
                None => before,
            }
        } else {
            before
        }
    }
}

fn find_group_owners(functions: &Vec<FunctionInfo>, facts: &Vec<LanguageFact>, key: &GroupKey) -> (result:
    Vec<usize>)
    ensures
        node_list(result@) == group_owners(
            views(functions@),
            views(facts@),
            key@,
            facts@.len() as int,
        ),
        in_range(result@, functions@.len()),
{
    let mut result: Vec<usize> = Vec::new();
    let mut index: usize = 0;
    proof {
        assert(node_list(result@) =~= Seq::empty());
    }
    while index < facts.len()
        invariant
            index <= facts@.len(),
            node_list(result@) == group_owners(
                views(functions@),
                views(facts@),
                key@,
                index as int,
            ),
            in_range(result@, functions@.len()),
        decreases facts@.len() - index,
    {
        let fact = &facts[index];
        proof {
            assert(views(facts@)[index as int] == fact@);
        }
        if same_text(fact.kind.as_str(), "recursive-group") && make_fact_key(fact).same(key) {
            if let Some(place) = find_first_function(functions, &fact.subject) {
                let ghost before = node_list(result@);
                result.push(place);
                proof {
                    assert(node_list(result@) =~= before.push(place as int));
                }
            }
        }
        index += 1;
    }
    result
}

/// Whether a function lies in one of the functions of a group.
pub open spec fn lies_in_group(
    functions: Seq<FunctionModel>,
    owners: Seq<int>,
    function: FunctionModel,
) -> bool {
    exists|k: int|
        0 <= k < owners.len() && same_place(
            functions[#[trigger] owners[k]].span.file,
            function.span.file,
        ) && contains_span(functions[owners[k]].span, function.span)
}

fn is_in_group(functions: &Vec<FunctionInfo>, owners: &Vec<usize>, function: &FunctionInfo) -> (result:
    bool)
    requires
        in_range(owners@, functions@.len()),
    ensures
        result == lies_in_group(views(functions@), node_list(owners@), function@),
{
    let ghost model = views(functions@);
    let ghost nodes = node_list(owners@);
    let mut index: usize = 0;
    while index < owners.len()
        invariant
            index <= owners@.len(),
            model == views(functions@),
            nodes == node_list(owners@),
            in_range(owners@, functions@.len()),
            forall|k: int|
                0 <= k < index ==> !(same_place(
                    model[#[trigger] nodes[k]].span.file,
                    function@.span.file,
                ) && contains_span(model[nodes[k]].span, function@.span)),
        decreases owners@.len() - index,
    {
        let place: usize = owners[index];
        proof {
            assert(nodes[index as int] == place);
            assert(model[place as int] == functions@[place as int]@);
        }
        let owner = &functions[place];
        if owner.span.file.same(&function.span.file) && span_contains(&owner.span, &function.span) {
            return true;
        }
        index += 1;
    }
    false
}

/// The functions among the first `count` of a group that a path names.
pub open spec fn path_owners(
    functions: Seq<FunctionModel>,
    owners: Seq<int>,
    parts: Seq<Seq<char>>,
    count: int,
) -> Seq<int>
    decreases count,
{
    if count <= 0 {
        Seq::empty()
    } else {
        let before = path_owners(functions, owners, parts, count - 1);
        let owner = functions[owners[count - 1]];
        if parts.len() > 0 && source_name(owner.id.name) == parts.last() && (parts.len() == 1
            || parts.take(parts.len() - 1) == owner.id.module) {
            before.push(owners[count - 1])
        } else {
            before
        }
    }
}

fn find_path_owners(functions: &Vec<FunctionInfo>, owners: &Vec<usize>, parts: &Vec<String>) -> (result:
    Vec<usize>)
    requires
        in_range(owners@, functions@.len()),
    ensures
        node_list(result@) == path_owners(
            views(functions@),
            node_list(owners@),
            texts(parts@),
            owners@.len() as int,
        ),
        in_range(result@, functions@.len()),
{
    let length: usize = parts.len();
    let ghost path = texts(parts@);
    let mut result: Vec<usize> = Vec::new();
    proof {
        assert(node_list(result@) =~= Seq::empty());
        assert(path.len() == length);
    }
    let module = some_texts(
        parts,
        0,
        if length > 0 {
            length - 1
        } else {
            0
        },
    );
    let mut index: usize = 0;
    while index < owners.len()
        invariant
            index <= owners@.len(),
            length == parts@.len(),
            path == texts(parts@),
            path.len() == length,
            length > 0 ==> texts(module@) == path.subrange(0, length - 1),
            in_range(owners@, functions@.len()),
            node_list(result@) == path_owners(
                views(functions@),
                node_list(owners@),
                path,
                index as int,
            ),
            in_range(result@, functions@.len()),
        decreases owners@.len() - index,
    {
        let place: usize = owners[index];
        proof {
            assert(node_list(owners@)[index as int] == place);
            assert(views(functions@)[place as int] == functions@[place as int]@);
            if length > 0 {
                assert(path.last() == parts@[length - 1]@);
                assert(path.subrange(0, length - 1) =~= path.take(length - 1));
            }
        }
        let owner = &functions[place];
        if length > 0 && same_text(
            ocaml_source_name(owner.id.name.as_str()).as_str(),
            parts[length - 1].as_str(),
        ) && (length == 1 || same_list(&module, &owner.id.module)) {
            let ghost before = node_list(result@);
            result.push(place);
            proof {
                assert(node_list(result@) =~= before.push(place as int));
            }
        }
        index += 1;
    }
    result
}

/// What a call in a function of a group reaches.
pub open spec fn group_target(
    functions: Seq<FunctionModel>,
    owners: Seq<int>,
    call: SiteModel,
) -> TargetModel {
    match visible_syntax(call.syntax) {
        SyntaxModel::Path(parts) => match common_id(
            functions,
            path_owners(functions, owners, parts, owners.len() as int),
        ) {
            Some(target) => TargetModel::Direct(target),
            None => call.target,
        },
        _ => call.target,
    }
}

fn find_group_target(functions: &Vec<FunctionInfo>, owners: &Vec<usize>, call: &CallSite) -> (result:
    CallTarget)
    requires
        in_range(owners@, functions@.len()),
    ensures
        result@ == group_target(views(functions@), node_list(owners@), call@),
{
    if let CallSyntax::Path(parts) = call.syntax.visible() {
        proof {
            assert(node_list(owners@).len() == owners@.len());
        }
        if let Some(target) = find_common_id(
            functions,
            &find_path_owners(functions, owners, parts),
        ) {
            return CallTarget::Direct(target);
        }
    }
    call.target.clone()
}

/// A function, with what its calls reach in a group that it lies in.
pub open spec fn grouped_function(
    functions: Seq<FunctionModel>,
    owners: Seq<int>,
    function: FunctionModel,
) -> FunctionModel {
    if lies_in_group(functions, owners, function) {
        FunctionModel {
            calls: function.calls.map_values(
                |call: SiteModel|
                    SiteModel { target: group_target(functions, owners, call), ..call },
            ),
            ..function
        }
    } else {
        function
    }
}

fn group_function(functions: &Vec<FunctionInfo>, owners: &Vec<usize>, function: &FunctionInfo) -> (result:
    FunctionInfo)
    requires
        in_range(owners@, functions@.len()),
    ensures
        result@ == grouped_function(views(functions@), node_list(owners@), function@),
{
    let ghost model = views(functions@);
    let ghost nodes = node_list(owners@);
    let mut result = function.clone();
    if !is_in_group(functions, owners, function) {
        return result;
    }
    let ghost wanted = grouped_function(model, nodes, function@).calls;
    let mut calls: Vec<CallSite> = Vec::new();
    let mut index: usize = 0;
    while index < function.calls.len()
        invariant
            index <= function.calls@.len(),
            calls@.len() == index,
            model == views(functions@),
            nodes == node_list(owners@),
            in_range(owners@, functions@.len()),
            lies_in_group(model, nodes, function@),
            wanted == grouped_function(model, nodes, function@).calls,
            forall|k: int| 0 <= k < index ==> (#[trigger] calls@[k])@ == wanted[k],
        decreases function.calls@.len() - index,
    {
        proof {
            assert(function@.calls[index as int] == function.calls@[index as int]@);
        }
        let mut call = function.calls[index].clone();
        call.target = find_group_target(functions, owners, &function.calls[index]);
        calls.push(call);
        index += 1;
    }
    result.calls = calls;
    proof {
        assert(result@.calls =~= wanted);
    }
    result
}

/// The functions, with what their calls reach in the first `count` groups.
pub open spec fn after_recursive_groups(
    functions: Seq<FunctionModel>,
    facts: Seq<FactModel>,
    keys: Seq<KeyModel>,
    count: int,
) -> Seq<FunctionModel>
    decreases count,
{
    if count <= 0 {
        functions
    } else {
        let before = after_recursive_groups(functions, facts, keys, count - 1);
        let owners = group_owners(functions, facts, keys[count - 1], facts.len() as int);
        before.map_values(
            |function: FunctionModel| grouped_function(functions, owners, function),
        )
    }
}

fn group_functions(
    source: &Vec<FunctionInfo>,
    owners: &Vec<usize>,
    functions: &Vec<FunctionInfo>,
) -> (result: Vec<FunctionInfo>)
    requires
        in_range(owners@, source@.len()),
    ensures
        views(result@) == views(functions@).map_values(
            |function: FunctionModel|
                grouped_function(views(source@), node_list(owners@), function),
        ),
{
    let ghost wanted = views(functions@).map_values(
        |function: FunctionModel| grouped_function(views(source@), node_list(owners@), function),
    );
    let mut result: Vec<FunctionInfo> = Vec::new();
    let mut index: usize = 0;
    while index < functions.len()
        invariant
            index <= functions@.len(),
            result@.len() == index,
            in_range(owners@, source@.len()),
            wanted == views(functions@).map_values(
                |function: FunctionModel|
                    grouped_function(views(source@), node_list(owners@), function),
            ),
            forall|k: int| 0 <= k < index ==> (#[trigger] result@[k])@ == wanted[k],
        decreases functions@.len() - index,
    {
        proof {
            assert(views(functions@)[index as int] == functions@[index as int]@);
        }
        result.push(group_function(source, owners, &functions[index]));
        index += 1;
    }
    proof {
        assert(views(result@) =~= wanted);
    }
    result
}

/// An analysis with the calls resolved of functions that can call each other.
pub open spec fn recursive_calls_resolved(analysis: AnalysisModel) -> AnalysisModel {
    let keys = recursive_keys(analysis.facts, analysis.facts.len() as int);
    AnalysisModel {
        functions: after_recursive_groups(
            analysis.functions,
            analysis.facts,
            keys,
            keys.len() as int,
        ),
        ..analysis
    }
}

/// Resolves the calls of functions that can call each other.
pub fn resolve_ocaml_recursive_groups(analysis: &mut FileAnalysis)
    ensures
        final(analysis)@ == recursive_calls_resolved(old(analysis)@),
{
    let ghost start = analysis@;
    let source = copy_list(&analysis.functions);
    let keys = find_recursive_keys(&analysis.facts);
    let ghost told = views(analysis.facts@);
    proof {
        assert(views(analysis.functions@) =~= start.functions);
        assert(told =~= start.facts);
        assert(told.len() == analysis.facts@.len());
        assert(views(keys@).len() == keys@.len());
    }
    let mut index: usize = 0;
    while index < keys.len()
        invariant
            index <= keys@.len(),
            views(source@) == start.functions,
            told == views(analysis.facts@),
            told == start.facts,
            told.len() == analysis.facts@.len(),
            analysis@.facts == start.facts,
            analysis@.source_files == start.source_files,
            analysis@.roots == start.roots,
            views(analysis.functions@) == after_recursive_groups(
                start.functions,
                told,
                views(keys@),
                index as int,
            ),
        decreases keys@.len() - index,
    {
        proof {
            assert(views(keys@)[index as int] == keys@[index as int]@);
        }
        let owners = find_group_owners(&source, &analysis.facts, &keys[index]);
        let functions = group_functions(&source, &owners, &analysis.functions);
        analysis.functions = functions;
        index += 1;
    }
    proof {
        assert(analysis@.functions =~= views(analysis.functions@));
    }
}

/// What a call reaches among the local functions, and how it is shown.
pub open spec fn local_call(
    functions: Seq<FunctionModel>,
    facts: Seq<FactModel>,
    id: SymbolModel,
    call: SiteModel,
) -> SiteModel {
    if !(call.target is Unresolved) {
        call
    } else {
        match visible_syntax(call.syntax) {
            SyntaxModel::Expression(expression) => match anonymous_function(
                functions,
                expression,
                id,
                Some(call.span),
            ) {
                Some(candidate) => match function_at(functions, candidate) {
                    Some(place) => SiteModel {
                        target: TargetModel::Direct(candidate),
                        label: LabelModel {
                            default: candidate_label(functions[place], call_arguments(call)),
                            typed: None,
                        },
                        ..call
                    },
                    None => call,
                },
                None => call,
            },
            SyntaxModel::Path(parts) => if parts.len() == 1 {
                match local_function(functions, parts[0], id, facts, Some(call.span)) {
                    Some(candidate) => match function_at(functions, candidate) {
                        Some(place) => SiteModel {
                            target: TargetModel::Direct(candidate),
                            label: match rsplit_once(candidate.name, "#closure"@) {
                                Some((_, ordinal)) => suffixed(
                                    call.label,
                                    " [closure#"@ + ordinal + "]"@,
                                ),
                                None => call.label,
                            },
                            ..call
                        },
                        None => call,
                    },
                    None => call,
                }
            } else {
                call
            },
            _ => call,
        }
    }
}

fn resolve_local_call(
    functions: &Vec<FunctionInfo>,
    facts: &Vec<LanguageFact>,
    id: &SymbolId,
    call: &CallSite,
) -> (result: CallSite)
    ensures
        result@ == local_call(views(functions@), views(facts@), id@, call@),
{
    let mut result = call.clone();
    match &call.target {
        CallTarget::Unresolved => {},
        _ => {
            return result;
        },
    }
    match call.syntax.visible() {
        CallSyntax::Expression(expression) => {
            if let Some(candidate) = anonymous_callable_symbol_at(
                functions,
                expression.as_str(),
                id,
                Some(&call.span),
            ) {
                if let Some(place) = find_function_at(functions, &candidate) {
                    proof {
                        assert(views(functions@)[place as int] == functions@[place as int]@);
                    }
                    let values = ocaml_call_arguments(call);
                    result.target = CallTarget::Direct(candidate);
                    result.label = CallLabel {
                        default: ocaml_candidate_call_label(&functions[place], &values),
                        typed: None,
                    };
                }
            }
        },
        CallSyntax::Path(parts) => {
            proof {
                assert(texts(parts@).len() == parts@.len());
            }
            if parts.len() == 1 {
                proof {
                    assert(texts(parts@)[0] == parts@[0]@);
                }
                if let Some(candidate) = local_callable_at(
                    functions,
                    parts[0].as_str(),
                    id,
                    facts,
                    Some(&call.span),
                ) {
                    if find_function_at(functions, &candidate).is_some() {
                        if let Some((_, ordinal)) = rsplit_text_once(
                            candidate.name.as_str(),
                            "#closure",
                        ) {
                            let mut suffix = concat_texts(" [closure#", ordinal.as_str());
                            suffix.append("]");
                            result.label = call.label.with_suffix(suffix.as_str());
                        }
                        result.target = CallTarget::Direct(candidate);
                    }
                }
            }
        },
        _ => {},
    }
    result
}

/// The functions, with what their calls reach among the local functions.
pub open spec fn local_calls_in(functions: Seq<FunctionModel>, facts: Seq<FactModel>) -> Seq<
    FunctionModel,
> {
    functions.map_values(
        |function: FunctionModel|
            FunctionModel {
                calls: function.calls.map_values(
                    |call: SiteModel| local_call(functions, facts, function.id, call),
                ),
                ..function
            },
    )
}

fn resolve_function_calls(
    functions: &Vec<FunctionInfo>,
    facts: &Vec<LanguageFact>,
    function: &FunctionInfo,
) -> (result: FunctionInfo)
    ensures
        result@ == (FunctionModel {
            calls: function@.calls.map_values(
                |call: SiteModel|
                    local_call(views(functions@), views(facts@), function@.id, call),
            ),
            ..function@
        }),
{
    let ghost wanted = function@.calls.map_values(
        |call: SiteModel| local_call(views(functions@), views(facts@), function@.id, call),
    );
    let mut calls: Vec<CallSite> = Vec::new();
    let mut index: usize = 0;
    while index < function.calls.len()
        invariant
            index <= function.calls@.len(),
            calls@.len() == index,
            wanted == function@.calls.map_values(
                |call: SiteModel|
                    local_call(views(functions@), views(facts@), function@.id, call),
            ),
            forall|k: int| 0 <= k < index ==> (#[trigger] calls@[k])@ == wanted[k],
        decreases function.calls@.len() - index,
    {
        proof {
            assert(function@.calls[index as int] == function.calls@[index as int]@);
        }
        calls.push(resolve_local_call(functions, facts, &function.id, &function.calls[index]));
        index += 1;
    }
    let result = FunctionInfo {
        id: function.id.clone(),
        label: function.label.clone(),
        public: function.public,
        calls,
        span: function.span.clone(),
    };
    proof {
        assert(result@.calls =~= wanted);
    }
    result
}

/// Resolves the calls of local functions.
pub fn resolve_local_callables(analysis: &mut FileAnalysis)
    ensures
        final(analysis)@ == (AnalysisModel {
            functions: local_calls_in(old(analysis)@.functions, old(analysis)@.facts),
            ..old(analysis)@
        }),
{
    let ghost start = analysis@;
    let ghost wanted = local_calls_in(start.functions, start.facts);
    proof {
        assert(views(analysis.functions@) =~= start.functions);
        assert(views(analysis.facts@) =~= start.facts);
    }
    let mut functions: Vec<FunctionInfo> = Vec::new();
    let mut index: usize = 0;
    while index < analysis.functions.len()
        invariant
            index <= analysis.functions@.len(),
            functions@.len() == index,
            views(analysis.functions@) == start.functions,
            views(analysis.facts@) == start.facts,
            wanted == local_calls_in(start.functions, start.facts),
            forall|k: int| 0 <= k < index ==> (#[trigger] functions@[k])@ == wanted[k],
        decreases analysis.functions@.len() - index,
    {
        proof {
            assert(start.functions[index as int] == analysis.functions@[index as int]@);
        }
        functions.push(
            resolve_function_calls(
                &analysis.functions,
                &analysis.facts,
                &analysis.functions[index],
            ),
        );
        index += 1;
    }
    analysis.functions = functions;
    proof {
        assert(analysis@.functions =~= wanted);
    }
}

/// The first fact, from `index` on, of a kind on a function.
pub open spec fn first_fact(
    facts: Seq<FactModel>,
    kind: Seq<char>,
    subject: SymbolModel,
    index: int,
) -> Option<int>
    decreases facts.len() - index,
{
    if index < 0 || index >= facts.len() {
        None
    } else if speaks_of(facts[index], kind, subject) {
        Some(index)
    } else {
        first_fact(facts, kind, subject, index + 1)
    }
}

fn find_first_fact(facts: &Vec<LanguageFact>, kind: &str, subject: &SymbolId) -> (result: Option<usize>)
    ensures
        optional_node(result) == first_fact(views(facts@), kind@, subject@, 0),
        match result {
            Some(place) => place < facts@.len(),
            None => true,
        },
{
    let mut index: usize = 0;
    while index < facts.len()
        invariant
            index <= facts@.len(),
            first_fact(views(facts@), kind@, subject@, index as int) == first_fact(
                views(facts@),
                kind@,
                subject@,
                0,
            ),
        decreases facts@.len() - index,
    {
        proof {
            assert(views(facts@)[index as int] == facts@[index as int]@);
        }
        if fact_speaks_of(&facts[index], kind, subject) {
            return Some(index);
        }
        index += 1;
    }
    None
}

/// What an anonymous function is shown as in place of its expression.
#[derive(Debug)]
pub struct Redaction {
    pub expression: String,
    pub lambda: String,
}

impl View for Redaction {
    type V = (Seq<char>, Seq<char>);

    open spec fn view(&self) -> (Seq<char>, Seq<char>) {
        (self.expression@, self.lambda@)
    }
}

/// What the anonymous functions among the first `count` are shown as.
pub open spec fn redactions(
    functions: Seq<FunctionModel>,
    facts: Seq<FactModel>,
    count: int,
) -> Seq<(Seq<char>, Seq<char>)>
    decreases count,
{
    if count <= 0 {
        Seq::empty()
    } else {
        let before = redactions(functions, facts, count - 1);
        let function = functions[count - 1];
        if !is_anonymous(function) {
            before
        } else {
            match first_fact(facts, "closure-expression"@, function.id, 0) {
                Some(place) => match first_word(function.label.default) {
                    Some(word) => before.push((facts[place].value, word)),
                    None => before,
                },
                None => before,
            }
        }
    }
}

fn find_redactions(functions: &Vec<FunctionInfo>, facts: &Vec<LanguageFact>) -> (result: Vec<
    Redaction,
>)
    ensures
        views(result@) == redactions(
            views(functions@),
            views(facts@),
            functions@.len() as int,
        ),
{
    let mut result: Vec<Redaction> = Vec::new();
    let mut index: usize = 0;
    proof {
        assert(views(result@) =~= Seq::empty());
    }
    while index < functions.len()
        invariant
            index <= functions@.len(),
            views(result@) == redactions(views(functions@), views(facts@), index as int),
        decreases functions@.len() - index,
    {
        let function = &functions[index];
        proof {
            assert(views(functions@)[index as int] == function@);
        }
        if starts_with_text(
            ocaml_source_name(function.id.name.as_str()).as_str(),
            "{lambda:",
        ) {
            if let Some(place) = find_first_fact(facts, "closure-expression", &function.id) {
                proof {
                    assert(views(facts@)[place as int] == facts@[place as int]@);
                }
                if let Some(word) = find_first_word(function.label.default.as_str()) {
                    let ghost before = views(result@);
                    let item = Redaction { expression: facts[place].value.clone(), lambda: word };
                    let ghost model = item@;
                    result.push(item);
                    proof {
                        assert(views(result@) =~= before.push(model));
                    }
                }
            }
        }
        index += 1;
    }
    result
}

/// A text with the first `count` anonymous functions shown in place of their
/// expressions.
pub open spec fn redacted(text: Seq<char>, shown: Seq<(Seq<char>, Seq<char>)>, count: int) -> Seq<char>
    decreases count,
{
    if count <= 0 {
        text
    } else {
        substituted(redacted(text, shown, count - 1), shown[count - 1].0, shown[count - 1].1)
    }
}

/// A label with anonymous functions shown in place of their expressions.
pub open spec fn redacted_label(label: LabelModel, shown: Seq<(Seq<char>, Seq<char>)>) -> LabelModel {
    LabelModel {
        default: redacted(label.default, shown, shown.len() as int),
        typed: match label.typed {
            Some(typed) => Some(redacted(typed, shown, shown.len() as int)),
            None => None,
        },
    }
}

fn redact_text(text: &str, shown: &Vec<Redaction>) -> (result: String)
    ensures
        result@ == redacted(text@, views(shown@), shown@.len() as int),
{
    let mut result = text.to_owned();
    let mut index: usize = 0;
    while index < shown.len()
        invariant
            index <= shown@.len(),
            result@ == redacted(text@, views(shown@), index as int),
        decreases shown@.len() - index,
    {
        proof {
            assert(views(shown@)[index as int] == shown@[index as int]@);
        }
        result = substitute_text(
            result.as_str(),
            shown[index].expression.as_str(),
            shown[index].lambda.as_str(),
        );
        index += 1;
    }
    result
}

/// The calls with anonymous functions shown in place of their expressions.
pub open spec fn redacted_calls(calls: Seq<SiteModel>, shown: Seq<(Seq<char>, Seq<char>)>) -> Seq<
    SiteModel,
> {
    calls.map_values(
        |call: SiteModel| SiteModel { label: redacted_label(call.label, shown), ..call },
    )
}

fn redact_calls(function: &FunctionInfo, shown: &Vec<Redaction>) -> (result: FunctionInfo)
    ensures
        result@ == (FunctionModel {
            calls: redacted_calls(function@.calls, views(shown@)),
            ..function@
        }),
{
    let ghost wanted = redacted_calls(function@.calls, views(shown@));
    let mut calls: Vec<CallSite> = Vec::new();
    let mut index: usize = 0;
    proof {
        assert(views(shown@).len() == shown@.len());
    }
    while index < function.calls.len()
        invariant
            index <= function.calls@.len(),
            calls@.len() == index,
            views(shown@).len() == shown@.len(),
            wanted == redacted_calls(function@.calls, views(shown@)),
            forall|k: int| 0 <= k < index ==> (#[trigger] calls@[k])@ == wanted[k],
        decreases function.calls@.len() - index,
    {
        proof {
            assert(function@.calls[index as int] == function.calls@[index as int]@);
        }
        let mut call = function.calls[index].clone();
        call.label = CallLabel {
            default: redact_text(function.calls[index].label.default.as_str(), shown),
            typed: match &function.calls[index].label.typed {
                Some(typed) => Some(redact_text(typed.as_str(), shown)),
                None => None,
            },
        };
        calls.push(call);
        index += 1;
    }
    let result = FunctionInfo {
        id: function.id.clone(),
        label: function.label.clone(),
        public: function.public,
        calls,
        span: function.span.clone(),
    };
    proof {
        assert(result@.calls =~= wanted);
    }
    result
}

/// The functions with anonymous functions shown in place of their expressions
/// in the calls.
pub open spec fn redacted_functions(functions: Seq<FunctionModel>, facts: Seq<FactModel>) -> Seq<
    FunctionModel,
> {
    let shown = redactions(functions, facts, functions.len() as int);
    functions.map_values(
        |function: FunctionModel|
            FunctionModel { calls: redacted_calls(function.calls, shown), ..function },
    )
}

/// Shows anonymous functions in place of their expressions in the calls.
pub fn redact_anonymous_call_arguments(analysis: &mut FileAnalysis)
    ensures
        final(analysis)@ == (AnalysisModel {
            functions: redacted_functions(old(analysis)@.functions, old(analysis)@.facts),
            ..old(analysis)@
        }),
{
    let ghost start = analysis@;
    let ghost wanted = redacted_functions(start.functions, start.facts);
    proof {
        assert(views(analysis.functions@) =~= start.functions);
        assert(views(analysis.facts@) =~= start.facts);
        assert(start.functions.len() == analysis.functions@.len());
    }
    let shown = find_redactions(&analysis.functions, &analysis.facts);
    let mut functions: Vec<FunctionInfo> = Vec::new();
    let mut index: usize = 0;
    while index < analysis.functions.len()
        invariant
            index <= analysis.functions@.len(),
            functions@.len() == index,
            views(analysis.functions@) == start.functions,
            views(shown@) == redactions(
                start.functions,
                start.facts,
                start.functions.len() as int,
            ),
            wanted == redacted_functions(start.functions, start.facts),
            forall|k: int| 0 <= k < index ==> (#[trigger] functions@[k])@ == wanted[k],
        decreases analysis.functions@.len() - index,
    {
        proof {
            assert(start.functions[index as int] == analysis.functions@[index as int]@);
        }
        functions.push(redact_calls(&analysis.functions[index], &shown));
        index += 1;
    }
    analysis.functions = functions;
    proof {
        assert(analysis@.functions =~= wanted);
    }
}

} // verus!
