//! The calls that the source shows, and what rustc says that they reach.
use crate::files::{same_identity, same_source_file, KnownFile};
use crate::lists::{find_value, value_of, views, Binding};
use crate::model::{
    candidate_models, copy_reasons, fact_models, function_models, symbol_parts, visible_syntax,
    CallLabel, CallSite, CallSyntax, CallTarget, CandidateModel, DispatchCandidate,
    DispatchEvidence, DispatchResolution, FactModel, FunctionInfo, FunctionModel, LabelModel,
    LanguageFact, LanguageId, SiteModel, SourceSpan, SpanModel, SymbolId, SymbolModel,
    SyntaxModel, TargetModel, UnresolvedReason,
};
use crate::names::{callable_part, callable_prefix};
use crate::rust::closures::{is_lambda, is_source_closure};
use crate::rust::labels::{
    annotate_rust_label, annotated, argument_list, begins_with, begins_with_char, candidate_label,
    label_with_callee, last_part, last_path_part, replace_dispatch_candidate_label,
    replace_label_callee, split_rust_arguments,
};
use crate::rust::markers::{direct_lambda, direct_lambda_callee};
use crate::rust::semantic::{
    InstanceModel, SemanticCall, SemanticCallModel, SemanticCallTarget, SemanticDispatchCandidate,
    SemanticFunction, SemanticModel, SemanticTargetModel,
};
use crate::spans::{
    contains_span, extent, overlap, same_coordinates, span_contains, span_coordinates_equal,
    span_distance, span_size, spans_overlap, start_distance,
};
use crate::text::{
    chars_of, concat_texts, contains, contains_text, copy_texts, join_texts, joined, same_text,
    strip_prefix, strip_prefix_text, strip_suffix, strip_suffix_text, texts,
};
use vstd::prelude::*;

verus! {

/// The symbol of a function instance with the given key.
pub open spec fn instance_symbol(key: Seq<char>) -> SymbolModel {
    SymbolModel { language: "rust"@, module: Seq::empty(), container: None, name: key }
}

/// The symbol of a function instance with the given key.
pub fn semantic_symbol(name: String) -> (result: SymbolId)
    ensures
        result@ == instance_symbol(name@),
{
    let result = SymbolId {
        language: LanguageId::new("rust"),
        module: Vec::new(),
        container: None,
        name,
    };
    proof {
        assert(texts(result.module@) =~= Seq::empty());
    }
    result
}

/// The name that a call is written with.
pub open spec fn written_name(syntax: SyntaxModel) -> Option<Seq<char>> {
    match visible_syntax(syntax) {
        SyntaxModel::Path(parts) => if parts.len() > 0 {
            Some(parts.last())
        } else {
            None
        },
        SyntaxModel::SelfMethod(method) => Some(method),
        SyntaxModel::Method { receiver, method } => Some(method),
        _ => None,
    }
}

/// The characters of an optional string slice.
pub open spec fn optional_str(text: Option<&str>) -> Option<Seq<char>> {
    match text {
        Some(text) => Some(text@),
        None => None,
    }
}

/// The name that a call is written with.
pub fn call_syntax_name(call: &CallSite) -> (result: Option<&str>)
    ensures
        optional_str(result) == written_name(call@.syntax),
{
    match call.syntax.visible() {
        CallSyntax::Path(parts) => if parts.len() > 0 {
            proof {
                assert(texts(parts@).last() == parts@.last()@);
            }
            Some(parts[parts.len() - 1].as_str())
        } else {
            None
        },
        CallSyntax::SelfMethod(method) => Some(method.as_str()),
        CallSyntax::Method { receiver: _, method } => Some(method.as_str()),
        _ => None,
    }
}

/// Whether a call of rustc can be a call of the source.
pub open spec fn call_fits(
    call: SiteModel,
    semantic: SemanticCallModel,
    known: Seq<(Seq<char>, Seq<char>)>,
) -> bool {
    &&& same_identity(known, call.span.file, semantic.span.file)
    &&& overlap(call.span, semantic.span)
    &&& (match written_name(call.syntax) {
        Some(name) => last_part(semantic.definition_name) == name,
        None => true,
    } || same_coordinates(call.span, semantic.span))
}

/// How badly a call of rustc fits a call of the source: another name counts
/// more than a hundred lines.
pub open spec fn call_cost(call: SiteModel, semantic: SemanticCallModel) -> int {
    let penalty: int = match written_name(call.syntax) {
        Some(name) => if last_part(semantic.definition_name) == name {
            0
        } else {
            1_000_000
        },
        None => 0,
    };
    penalty + start_distance(call.span, semantic.span)
}

/// The best of the first `count` calls of rustc for a call of the source, but
/// for those that are claimed.
pub open spec fn best_call(
    call: SiteModel,
    calls: Seq<SemanticCallModel>,
    claimed: Seq<usize>,
    known: Seq<(Seq<char>, Seq<char>)>,
    count: int,
) -> Option<int>
    decreases count,
{
    if count <= 0 {
        None
    } else {
        let before = best_call(call, calls, claimed, known, count - 1);
        if !claimed.contains((count - 1) as usize) && call_fits(call, calls[count - 1], known)
            && match before {
            Some(best) => call_cost(call, calls[count - 1]) < call_cost(call, calls[best]),
            None => true,
        } {
            Some(count - 1)
        } else {
            before
        }
    }
}

fn has_number(numbers: &Vec<usize>, number: usize) -> (result: bool)
    ensures
        result == numbers@.contains(number),
{
    let mut index: usize = 0;
    while index < numbers.len()
        invariant
            index <= numbers@.len(),
            forall|k: int| 0 <= k < index ==> numbers@[k] != number,
        decreases numbers@.len() - index,
    {
        if numbers[index] == number {
            return true;
        }
        index += 1;
    }
    false
}

fn names_match(call: &CallSite, semantic: &SemanticCall) -> (result: bool)
    ensures
        result == (match written_name(call@.syntax) {
            Some(name) => last_part(semantic@.definition_name) == name,
            None => true,
        }),
{
    match call_syntax_name(call) {
        Some(name) => same_text(last_path_part(semantic.definition_name.as_str()).as_str(), name),
        None => true,
    }
}

fn cost_of(call: &CallSite, semantic: &SemanticCall) -> (result: u128)
    ensures
        result == call_cost(call@, semantic@),
{
    let penalty: u128 = if names_match(call, semantic) {
        0
    } else {
        1_000_000
    };
    penalty + span_distance(&call.span, &semantic.span)
}

/// The call of rustc that fits a call of the source best, but for those that
/// are claimed.
pub fn best_semantic_call(
    syntax_call: &CallSite,
    semantic_calls: &Vec<SemanticCall>,
    claimed: &Vec<usize>,
    file_identities: &Vec<KnownFile>,
) -> (result: Option<usize>)
    ensures
        match result {
            Some(index) => index < semantic_calls@.len() && best_call(
                syntax_call@,
                views(semantic_calls@),
                claimed@,
                views(file_identities@),
                semantic_calls@.len() as int,
            ) == Some(index as int),
            None => best_call(
                syntax_call@,
                views(semantic_calls@),
                claimed@,
                views(file_identities@),
                semantic_calls@.len() as int,
            ) is None,
        },
{
    let mut best: Option<usize> = None;
    let mut index: usize = 0;
    while index < semantic_calls.len()
        invariant
            index <= semantic_calls@.len(),
            match best {
                Some(best) => best < index && best_call(
                    syntax_call@,
                    views(semantic_calls@),
                    claimed@,
                    views(file_identities@),
                    index as int,
                ) == Some(best as int),
                None => best_call(
                    syntax_call@,
                    views(semantic_calls@),
                    claimed@,
                    views(file_identities@),
                    index as int,
                ) is None,
            },
        decreases semantic_calls@.len() - index,
    {
        let semantic = &semantic_calls[index];
        proof {
            assert(views(semantic_calls@)[index as int] == semantic@);
        }
        let fits = !has_number(claimed, index) && same_source_file(
            file_identities,
            &syntax_call.span.file,
            &semantic.span.file,
        ) && spans_overlap(&syntax_call.span, &semantic.span) && (names_match(
            syntax_call,
            semantic,
        ) || span_coordinates_equal(&syntax_call.span, &semantic.span));
        if fits {
            match best {
                Some(earlier) => {
                    proof {
                        assert(views(semantic_calls@)[earlier as int]
                            == semantic_calls@[earlier as int]@);
                    }
                    if cost_of(syntax_call, semantic) < cost_of(
                        syntax_call,
                        &semantic_calls[earlier],
                    ) {
                        best = Some(index);
                    }
                },
                None => {
                    best = Some(index);
                },
            }
        }
        index += 1;
    }
    best
}

/// Whether a function of the source can be the template of an instance.
pub open spec fn template_holds(
    function: FunctionModel,
    body: SpanModel,
    known: Seq<(Seq<char>, Seq<char>)>,
) -> bool {
    same_identity(known, function.span.file, body.file) && contains_span(function.span, body)
}

/// The innermost of the first `count` functions that a body lies in.
pub open spec fn template_of(
    functions: Seq<FunctionModel>,
    body: SpanModel,
    known: Seq<(Seq<char>, Seq<char>)>,
    count: int,
) -> Option<int>
    decreases count,
{
    if count <= 0 {
        None
    } else {
        let before = template_of(functions, body, known, count - 1);
        let function = functions[count - 1];
        if template_holds(function, body, known) && match before {
            Some(best) => extent(function.span) < extent(functions[best].span),
            None => true,
        } {
            Some(count - 1)
        } else {
            before
        }
    }
}

/// The function of the source that a body lies in: of several, the innermost.
pub fn best_function_template(
    functions: &Vec<FunctionInfo>,
    body_span: &SourceSpan,
    file_identities: &Vec<KnownFile>,
) -> (result: Option<usize>)
    ensures
        match result {
            Some(index) => index < functions@.len() && template_of(
                function_models(functions@),
                body_span@,
                views(file_identities@),
                functions@.len() as int,
            ) == Some(index as int),
            None => template_of(
                function_models(functions@),
                body_span@,
                views(file_identities@),
                functions@.len() as int,
            ) is None,
        },
{
    let mut best: Option<usize> = None;
    let mut index: usize = 0;
    while index < functions.len()
        invariant
            index <= functions@.len(),
            match best {
                Some(best) => best < index && template_of(
                    function_models(functions@),
                    body_span@,
                    views(file_identities@),
                    index as int,
                ) == Some(best as int),
                None => template_of(
                    function_models(functions@),
                    body_span@,
                    views(file_identities@),
                    index as int,
                ) is None,
            },
        decreases functions@.len() - index,
    {
        let function = &functions[index];
        proof {
            assert(function_models(functions@)[index as int] == function@);
        }
        if same_source_file(file_identities, &function.span.file, &body_span.file)
            && span_contains(&function.span, body_span) {
            match best {
                Some(earlier) => {
                    proof {
                        assert(function_models(functions@)[earlier as int]
                            == functions@[earlier as int]@);
                    }
                    if span_size(&function.span) < span_size(&functions[earlier].span) {
                        best = Some(index);
                    }
                },
                None => {
                    best = Some(index);
                },
            }
        }
        index += 1;
    }
    best
}

/// The closure that a call is written for.
pub open spec fn wanted_lambda(syntax: SyntaxModel) -> Option<Seq<char>> {
    match visible_syntax(syntax) {
        SyntaxModel::Expression(expression) => direct_lambda(expression),
        _ => match written_name(syntax) {
            Some(name) => Some("λ"@ + name),
            None => None,
        },
    }
}

/// Whether a function is the closure `lambda` of an owner.
pub open spec fn is_lambda_of(
    function: FunctionModel,
    owner: SymbolModel,
    lambda: Seq<char>,
) -> bool {
    is_lambda(function) && function.id.container == Some(joined(symbol_parts(owner), "::"@))
        && callable_part(function.label.default) == lambda
}

/// The first function from `index` on that is the closure `lambda` of an
/// owner.
pub open spec fn lambda_from(
    functions: Seq<FunctionModel>,
    owner: SymbolModel,
    lambda: Seq<char>,
    index: int,
) -> Option<int>
    decreases functions.len() - index,
{
    if index < 0 || index >= functions.len() {
        None
    } else if is_lambda_of(functions[index], owner, lambda) {
        Some(index)
    } else {
        lambda_from(functions, owner, lambda, index + 1)
    }
}

/// The closure of the source that a call of `owner` is written for.
pub open spec fn called_lambda(
    functions: Seq<FunctionModel>,
    owner: SymbolModel,
    syntax: SyntaxModel,
) -> Option<int> {
    match wanted_lambda(syntax) {
        Some(lambda) => lambda_from(functions, owner, lambda, 0),
        None => None,
    }
}

/// The closure of the source that a call of `owner` is written for.
pub fn source_closure_for_call(
    owner: &FunctionInfo,
    call: &CallSite,
    functions: &Vec<FunctionInfo>,
) -> (result: Option<usize>)
    ensures
        match result {
            Some(index) => index < functions@.len() && called_lambda(
                function_models(functions@),
                owner@.id,
                call@.syntax,
            ) == Some(index as int),
            None => called_lambda(function_models(functions@), owner@.id, call@.syntax) is None,
        },
{
    let wanted = match call.syntax.visible() {
        CallSyntax::Expression(expression) => direct_lambda_callee(expression.as_str()),
        _ => match call_syntax_name(call) {
            Some(name) => Some(concat_texts("λ", name)),
            None => None,
        },
    };
    let lambda = match wanted {
        Some(lambda) => lambda,
        None => {
            return None;
        },
    };
    let container = join_texts(&owner.id.owned_parts(), "::");
    let mut index: usize = 0;
    while index < functions.len()
        invariant
            index <= functions@.len(),
            container@ == joined(symbol_parts(owner@.id), "::"@),
            wanted_lambda(call@.syntax) == Some(lambda@),
            lambda_from(function_models(functions@), owner@.id, lambda@, index as int)
                == lambda_from(function_models(functions@), owner@.id, lambda@, 0),
        decreases functions@.len() - index,
    {
        let function = &functions[index];
        proof {
            assert(function_models(functions@)[index as int] == function@);
        }
        let contained = match &function.id.container {
            Some(other) => same_text(other.as_str(), container.as_str()),
            None => false,
        };
        if is_source_closure(function) && contained && same_text(
            callable_prefix(function.label.default.as_str()).as_str(),
            lambda.as_str(),
        ) {
            return Some(index);
        }
        index += 1;
    }
    None
}

/// Whether an instance of a function with a key is among the functions.
pub open spec fn has_key(functions: Seq<SemanticModel>, key: Seq<char>) -> bool {
    exists|index: int| 0 <= index < functions.len() && (#[trigger] functions[index]).key == key
}

/// Whether an instance of a function with a key is among the functions.
pub fn is_local_key(functions: &Vec<SemanticFunction>, key: &str) -> (result: bool)
    ensures
        result == has_key(views(functions@), key@),
{
    let mut index: usize = 0;
    while index < functions.len()
        invariant
            index <= functions@.len(),
            forall|k: int| 0 <= k < index ==> (#[trigger] views(functions@)[k]).key != key@,
        decreases functions@.len() - index,
    {
        proof {
            assert(views(functions@)[index as int] == functions@[index as int]@);
        }
        if same_text(functions[index].key.as_str(), key) {
            return true;
        }
        index += 1;
    }
    false
}

/// Whether an instance lies in a closure.
pub open spec fn lies_in_closure(
    function: SemanticModel,
    closure: SpanModel,
    known: Seq<(Seq<char>, Seq<char>)>,
) -> bool {
    same_identity(known, closure.file, function.body_span.file) && contains_span(
        closure,
        function.body_span,
    )
}

/// The smallest of the first `count` instances that lie in a closure.
pub open spec fn smallest_instance(
    functions: Seq<SemanticModel>,
    closure: SpanModel,
    known: Seq<(Seq<char>, Seq<char>)>,
    count: int,
) -> Option<int>
    decreases count,
{
    if count <= 0 {
        None
    } else {
        let before = smallest_instance(functions, closure, known, count - 1);
        let function = functions[count - 1];
        if lies_in_closure(function, closure, known) && match before {
            Some(best) => extent(function.body_span) < extent(functions[best].body_span),
            None => true,
        } {
            Some(count - 1)
        } else {
            before
        }
    }
}

fn find_smallest_instance(
    functions: &Vec<SemanticFunction>,
    closure: &SourceSpan,
    file_identities: &Vec<KnownFile>,
) -> (result: Option<usize>)
    ensures
        match result {
            Some(index) => index < functions@.len() && smallest_instance(
                views(functions@),
                closure@,
                views(file_identities@),
                functions@.len() as int,
            ) == Some(index as int),
            None => smallest_instance(
                views(functions@),
                closure@,
                views(file_identities@),
                functions@.len() as int,
            ) is None,
        },
{
    let mut best: Option<usize> = None;
    let mut index: usize = 0;
    while index < functions.len()
        invariant
            index <= functions@.len(),
            match best {
                Some(best) => best < index && smallest_instance(
                    views(functions@),
                    closure@,
                    views(file_identities@),
                    index as int,
                ) == Some(best as int),
                None => smallest_instance(
                    views(functions@),
                    closure@,
                    views(file_identities@),
                    index as int,
                ) is None,
            },
        decreases functions@.len() - index,
    {
        let function = &functions[index];
        proof {
            assert(views(functions@)[index as int] == function@);
        }
        if same_source_file(file_identities, &closure.file, &function.body_span.file)
            && span_contains(closure, &function.body_span) {
            match best {
                Some(earlier) => {
                    proof {
                        assert(views(functions@)[earlier as int] == functions@[earlier as int]@);
                    }
                    if span_size(&function.body_span) < span_size(&functions[earlier].body_span) {
                        best = Some(index);
                    }
                },
                None => {
                    best = Some(index);
                },
            }
        }
        index += 1;
    }
    best
}

/// What the source says of a program, and what rustc says of it.
pub struct MergeInput<'a> {
    pub functions: &'a Vec<FunctionInfo>,
    pub facts: &'a Vec<LanguageFact>,
    pub semantic: &'a Vec<SemanticFunction>,
    pub identities: &'a Vec<KnownFile>,
    /// The dynamic calls that instances without source only pass on to.
    pub forwarders: &'a Vec<Binding<SemanticCallTarget>>,
}

#[verifier::ext_equal]
pub struct InputModel {
    pub functions: Seq<FunctionModel>,
    pub facts: Seq<FactModel>,
    pub semantic: Seq<SemanticModel>,
    pub known: Seq<(Seq<char>, Seq<char>)>,
    pub forwarders: Seq<(Seq<char>, SemanticTargetModel)>,
}

impl<'a> View for MergeInput<'a> {
    type V = InputModel;

    open spec fn view(&self) -> InputModel {
        InputModel {
            functions: function_models(self.functions@),
            facts: fact_models(self.facts@),
            semantic: views(self.semantic@),
            known: views(self.identities@),
            forwarders: views(self.forwarders@),
        }
    }
}

/// The key of the instance that stands for a closure of the source, by the
/// first `count` functions.
pub open spec fn closure_key(input: InputModel, closure: SymbolModel, count: int) -> Option<
    Seq<char>,
>
    decreases count,
{
    if count <= 0 {
        None
    } else {
        let function = input.functions[count - 1];
        let found = smallest_instance(
            input.semantic,
            function.span,
            input.known,
            input.semantic.len() as int,
        );
        if is_lambda(function) && function.id == closure && found is Some {
            Some(input.semantic[found->0].key)
        } else {
            closure_key(input, closure, count - 1)
        }
    }
}

fn find_closure_key(input: &MergeInput, closure: &SymbolId) -> (result: Option<String>)
    ensures
        crate::text::optional(result) == closure_key(
            input@,
            closure@,
            input@.functions.len() as int,
        ),
{
    let mut count: usize = input.functions.len();
    while count > 0
        invariant
            count <= input.functions@.len(),
            closure_key(input@, closure@, count as int) == closure_key(
                input@,
                closure@,
                input@.functions.len() as int,
            ),
        decreases count,
    {
        let function = &input.functions[count - 1];
        proof {
            assert(input@.functions[count - 1] == function@);
        }
        if is_source_closure(function) && function.id.same(closure) {
            match find_smallest_instance(input.semantic, &function.span, input.identities) {
                Some(index) => {
                    proof {
                        assert(input@.semantic[index as int] == input.semantic@[index as int]@);
                    }
                    return Some(input.semantic[index].key.clone());
                },
                None => {},
            }
        }
        count -= 1;
    }
    None
}

/// What a call reaches, its label, and the closures that are needed although
/// rustc has no instance of them.
#[verifier::ext_equal]
pub struct OutcomeModel {
    pub target: TargetModel,
    pub label: LabelModel,
    pub required: Seq<SymbolModel>,
}

/// What a call reaches, its label, and the closures that are needed although
/// rustc has no instance of them.
#[derive(Debug)]
pub struct CallOutcome {
    pub target: CallTarget,
    pub label: CallLabel,
    pub required: Vec<SymbolId>,
}

impl View for CallOutcome {
    type V = OutcomeModel;

    open spec fn view(&self) -> OutcomeModel {
        OutcomeModel {
            target: self.target@,
            label: self.label@,
            required: views(self.required@),
        }
    }
}

/// What a call of a closure of the source reaches.
pub open spec fn closure_outcome(
    input: InputModel,
    closure: FunctionModel,
    label: LabelModel,
) -> OutcomeModel {
    let label = label_with_callee(label, callable_part(closure.label.default));
    match closure_key(input, closure.id, input.functions.len() as int) {
        Some(key) => OutcomeModel {
            target: TargetModel::Direct(instance_symbol(key)),
            label,
            required: Seq::empty(),
        },
        None => OutcomeModel {
            target: TargetModel::Direct(closure.id),
            label,
            required: seq![closure.id],
        },
    }
}

fn resolve_closure(input: &MergeInput, closure: &FunctionInfo, label: &CallLabel) -> (result:
    CallOutcome)
    ensures
        result@ == closure_outcome(input@, closure@, label@),
{
    let callee = callable_prefix(closure.label.default.as_str());
    let label = replace_label_callee(label, callee.as_str());
    match find_closure_key(input, &closure.id) {
        Some(key) => {
            let result = CallOutcome {
                target: CallTarget::Direct(semantic_symbol(key)),
                label,
                required: Vec::new(),
            };
            proof {
                assert(views(result.required@) =~= Seq::empty());
            }
            result
        },
        None => {
            let mut required: Vec<SymbolId> = Vec::new();
            required.push(closure.id.clone());
            let result = CallOutcome {
                target: CallTarget::Direct(closure.id.clone()),
                label,
                required,
            };
            proof {
                assert(views(result.required@) =~= seq![closure@.id]);
            }
            result
        },
    }
}

/// The target of a call, through instances that only pass on.
pub open spec fn effective_target(
    input: InputModel,
    target: SemanticTargetModel,
) -> SemanticTargetModel {
    match target {
        SemanticTargetModel::Direct { key, display } => match value_of(input.forwarders, key) {
            Some(forwarded) => forwarded,
            None => target,
        },
        _ => target,
    }
}

/// The candidates of a dynamic call, with their labels.
pub open spec fn dispatch_candidates(
    candidates: Seq<InstanceModel>,
    label: LabelModel,
) -> Seq<CandidateModel> {
    candidates.map_values(
        |candidate: InstanceModel|
            CandidateModel {
                target: instance_symbol(candidate.key),
                label: candidate_label(label, candidate.display),
            },
    )
}

/// How completely a dynamic call is resolved.
pub open spec fn resolution_of(candidates: nat, open: bool) -> DispatchResolution {
    if candidates == 0 {
        DispatchResolution::Unresolved
    } else if open {
        DispatchResolution::Partial
    } else {
        DispatchResolution::Complete
    }
}

/// How completely a dynamic call is resolved.
pub fn find_resolution(candidates: usize, open: bool) -> (result: DispatchResolution)
    ensures
        result == resolution_of(candidates as nat, open),
{
    if candidates == 0 {
        DispatchResolution::Unresolved
    } else if open {
        DispatchResolution::Partial
    } else {
        DispatchResolution::Complete
    }
}

/// Why a dynamic call is not, or only partly, resolved.
pub open spec fn dispatch_reasons(reasons: Seq<UnresolvedReason>, candidates: nat) -> Seq<
    UnresolvedReason,
> {
    if reasons.len() == 0 && candidates == 0 {
        seq![UnresolvedReason::AnalysisLimit]
    } else {
        reasons
    }
}

/// Whether a call is the call of a closure expression.
pub open spec fn calls_lambda_expression(syntax: SyntaxModel) -> bool {
    match visible_syntax(syntax) {
        SyntaxModel::Expression(expression) => direct_lambda(expression) is Some,
        _ => false,
    }
}

/// What a call of the source reaches by the target that rustc found for it.
pub open spec fn call_outcome(
    input: InputModel,
    owner: SymbolModel,
    call: SiteModel,
    target: SemanticTargetModel,
) -> OutcomeModel {
    let lambda = called_lambda(input.functions, owner, call.syntax);
    match target {
        SemanticTargetModel::Direct { key, display } => if calls_lambda_expression(call.syntax)
            && lambda is Some {
            closure_outcome(input, input.functions[lambda->0], call.label)
        } else {
            OutcomeModel {
                target: TargetModel::Direct(instance_symbol(key)),
                label: if has_key(input.semantic, key) {
                    label_with_callee(call.label, display)
                } else {
                    call.label
                },
                required: Seq::empty(),
            }
        },
        SemanticTargetModel::Dynamic {
            key,
            display,
            candidates,
            open,
            unresolved_reasons,
            receiver_flow,
        } => OutcomeModel {
            target: TargetModel::Dynamic {
                dispatch: instance_symbol(key),
                candidates: dispatch_candidates(candidates, call.label),
                resolution: resolution_of(candidates.len(), open),
                evidence: DispatchEvidence::ExactFlow,
                unresolved_reasons: dispatch_reasons(unresolved_reasons, candidates.len()),
            },
            label: label_with_callee(call.label, display),
            required: Seq::empty(),
        },
        SemanticTargetModel::Indirect { signature } => OutcomeModel {
            target: TargetModel::Indirect {
                signature: Some(signature),
                reason: UnresolvedReason::FunctionPointer,
            },
            label: call.label,
            required: Seq::empty(),
        },
        SemanticTargetModel::Unresolved => match lambda {
            Some(index) => closure_outcome(input, input.functions[index], call.label),
            None => OutcomeModel {
                target: TargetModel::Unresolved,
                label: call.label,
                required: Seq::empty(),
            },
        },
    }
}

fn candidates_of(candidates: &Vec<SemanticDispatchCandidate>, label: &CallLabel) -> (result: Vec<
    DispatchCandidate,
>)
    ensures
        candidate_models(result@) == dispatch_candidates(views(candidates@), label@),
{
    let mut result: Vec<DispatchCandidate> = Vec::new();
    let mut index: usize = 0;
    while index < candidates.len()
        invariant
            index <= candidates@.len(),
            result@.len() == index,
            forall|k: int|
                0 <= k < index ==> (#[trigger] result@[k])@ == (CandidateModel {
                    target: instance_symbol(candidates@[k]@.key),
                    label: candidate_label(label@, candidates@[k]@.display),
                }),
        decreases candidates@.len() - index,
    {
        let candidate = &candidates[index];
        result.push(
            DispatchCandidate {
                target: semantic_symbol(candidate.key.clone()),
                label: replace_dispatch_candidate_label(label, candidate.display.as_str()),
            },
        );
        index += 1;
    }
    proof {
        assert(candidate_models(result@) =~= dispatch_candidates(views(candidates@), label@));
    }
    result
}

fn plain_outcome(target: CallTarget, label: CallLabel) -> (result: CallOutcome)
    ensures
        result@ == (OutcomeModel { target: target@, label: label@, required: Seq::empty() }),
{
    let result = CallOutcome { target, label, required: Vec::new() };
    proof {
        assert(views(result.required@) =~= Seq::empty());
    }
    result
}

fn is_lambda_expression_call(call: &CallSite) -> (result: bool)
    ensures
        result == calls_lambda_expression(call@.syntax),
{
    match call.syntax.visible() {
        CallSyntax::Expression(expression) => direct_lambda_callee(expression.as_str()).is_some(),
        _ => false,
    }
}

fn dynamic_outcome(
    key: &String,
    display: &String,
    candidates: &Vec<SemanticDispatchCandidate>,
    open: bool,
    unresolved_reasons: &Vec<UnresolvedReason>,
    label: &CallLabel,
) -> (result: CallOutcome)
    ensures
        result@ == (OutcomeModel {
            target: TargetModel::Dynamic {
                dispatch: instance_symbol(key@),
                candidates: dispatch_candidates(views(candidates@), label@),
                resolution: resolution_of(candidates@.len(), open),
                evidence: DispatchEvidence::ExactFlow,
                unresolved_reasons: dispatch_reasons(unresolved_reasons@, candidates@.len()),
            },
            label: label_with_callee(label@, display@),
            required: Seq::empty(),
        }),
{
    let reasons = if unresolved_reasons.len() == 0 && candidates.len() == 0 {
        let mut reasons: Vec<UnresolvedReason> = Vec::new();
        reasons.push(UnresolvedReason::AnalysisLimit);
        reasons
    } else {
        copy_reasons(unresolved_reasons)
    };
    proof {
        assert(reasons@ =~= dispatch_reasons(unresolved_reasons@, candidates@.len()));
    }
    let target = CallTarget::Dynamic {
        dispatch: semantic_symbol(key.clone()),
        candidates: candidates_of(candidates, label),
        resolution: if candidates.len() == 0 {
            DispatchResolution::Unresolved
        } else if open {
            DispatchResolution::Partial
        } else {
            DispatchResolution::Complete
        },
        evidence: DispatchEvidence::ExactFlow,
        unresolved_reasons: reasons,
    };
    plain_outcome(target, replace_label_callee(label, display.as_str()))
}

fn resolve_target(
    input: &MergeInput,
    owner: &FunctionInfo,
    call: &CallSite,
    target: &SemanticCallTarget,
) -> (result: CallOutcome)
    ensures
        result@ == call_outcome(input@, owner@.id, call@, target@),
{
    match target {
        SemanticCallTarget::Direct { key, display } => {
            if is_lambda_expression_call(call) {
                match source_closure_for_call(owner, call, input.functions) {
                    Some(index) => {
                        proof {
                            assert(input@.functions[index as int]
                                == input.functions@[index as int]@);
                        }
                        return resolve_closure(input, &input.functions[index], &call.label);
                    },
                    None => {},
                }
            }
            let label = if is_local_key(input.semantic, key.as_str()) {
                replace_label_callee(&call.label, display.as_str())
            } else {
                call.label.clone()
            };
            plain_outcome(CallTarget::Direct(semantic_symbol(key.clone())), label)
        },
        SemanticCallTarget::Dynamic {
            key,
            display,
            candidates,
            open,
            unresolved_reasons,
            receiver_flow: _,
        } => dynamic_outcome(key, display, candidates, *open, unresolved_reasons, &call.label),
        SemanticCallTarget::Indirect { signature } => plain_outcome(
            CallTarget::Indirect {
                signature: Some(signature.clone()),
                reason: UnresolvedReason::FunctionPointer,
            },
            call.label.clone(),
        ),
        SemanticCallTarget::Unresolved => match source_closure_for_call(
            owner,
            call,
            input.functions,
        ) {
            Some(index) => {
                proof {
                    assert(input@.functions[index as int] == input.functions@[index as int]@);
                }
                resolve_closure(input, &input.functions[index], &call.label)
            },
            None => plain_outcome(CallTarget::Unresolved, call.label.clone()),
        },
    }
}

/// The texts among the first `count` that are not empty.
pub open spec fn nonempty(values: Seq<Seq<char>>, count: int) -> Seq<Seq<char>>
    decreases count,
{
    if count <= 0 {
        Seq::empty()
    } else if values[count - 1].len() > 0 {
        nonempty(values, count - 1).push(values[count - 1])
    } else {
        nonempty(values, count - 1)
    }
}

/// Whether a target is a closure.
pub open spec fn reaches_closure(target: SemanticTargetModel) -> bool {
    match target {
        SemanticTargetModel::Direct { key, display } => begins_with(display, 'λ') || contains(
            display,
            "{closure#"@,
        ),
        _ => false,
    }
}

/// The types of the arguments of a call. Those of a closure come in a tuple.
pub open spec fn types_of_arguments(call: SemanticCallModel) -> Seq<Seq<char>> {
    if !reaches_closure(call.target) || call.argument_types.len() == 0 {
        call.argument_types
    } else {
        match strip_prefix(call.argument_types.last(), "("@) {
            None => call.argument_types,
            Some(rest) => match strip_suffix(rest, ")"@) {
                None => call.argument_types,
                Some(tuple) => {
                    let types = argument_list(tuple);
                    nonempty(types, types.len() as int)
                },
            },
        }
    }
}

fn nonempty_texts(values: Vec<String>) -> (result: Vec<String>)
    ensures
        texts(result@) == nonempty(texts(values@), values@.len() as int),
{
    let mut result: Vec<String> = Vec::new();
    let mut index: usize = 0;
    proof {
        assert(texts(result@) =~= Seq::empty());
    }
    while index < values.len()
        invariant
            index <= values@.len(),
            texts(result@) == nonempty(texts(values@), index as int),
        decreases values@.len() - index,
    {
        let ghost before = texts(result@);
        if chars_of(values[index].as_str()).len() > 0 {
            result.push(values[index].clone());
            proof {
                assert(texts(result@) =~= before.push(values@[index as int]@));
            }
        }
        index += 1;
    }
    result
}

/// The types of the arguments of a call. Those of a closure come in a tuple.
pub fn semantic_call_argument_types(call: &SemanticCall) -> (result: Vec<String>)
    ensures
        texts(result@) == types_of_arguments(call@),
{
    let closure = match &call.target {
        SemanticCallTarget::Direct { key: _, display } => begins_with_char(display.as_str(), 'λ')
            || contains_text(display.as_str(), "{closure#"),
        _ => false,
    };
    let length: usize = call.argument_types.len();
    if !closure || length == 0 {
        return copy_texts(&call.argument_types);
    }
    let last = &call.argument_types[length - 1];
    proof {
        assert(call@.argument_types.last() == last@);
    }
    match strip_prefix_text(last.as_str(), "(") {
        None => copy_texts(&call.argument_types),
        Some(rest) => match strip_suffix_text(rest.as_str(), ")") {
            None => copy_texts(&call.argument_types),
            Some(tuple) => {
                let types = split_rust_arguments(tuple.as_str());
                proof {
                    assert(texts(types@).len() == types@.len());
                }
                nonempty_texts(types)
            },
        },
    }
}

/// Whether a call of the source only builds a value.
pub open spec fn constructs(call: SiteModel, function: SemanticModel) -> bool {
    ||| exists|index: int|
        0 <= index < function.constructor_spans.len() && same_coordinates(
            call.span,
            #[trigger] function.constructor_spans[index],
        )
    ||| match written_name(call.syntax) {
        Some(name) => function.constructor_names.contains(name),
        None => false,
    }
}

fn is_constructor(call: &CallSite, function: &SemanticFunction) -> (result: bool)
    ensures
        result == constructs(call@, function@),
{
    let mut index: usize = 0;
    while index < function.constructor_spans.len()
        invariant
            index <= function.constructor_spans@.len(),
            forall|k: int|
                0 <= k < index ==> !same_coordinates(
                    call@.span,
                    #[trigger] function@.constructor_spans[k],
                ),
        decreases function.constructor_spans@.len() - index,
    {
        proof {
            assert(function@.constructor_spans[index as int]
                == function.constructor_spans@[index as int]@);
        }
        if span_coordinates_equal(&call.span, &function.constructor_spans[index]) {
            return true;
        }
        index += 1;
    }
    match call_syntax_name(call) {
        Some(name) => has_text(&function.constructor_names, name),
        None => false,
    }
}

/// Whether a text is in a list.
pub fn has_text(values: &Vec<String>, value: &str) -> (result: bool)
    ensures
        result == texts(values@).contains(value@),
{
    let mut index: usize = 0;
    while index < values.len()
        invariant
            index <= values@.len(),
            forall|k: int| 0 <= k < index ==> (#[trigger] texts(values@)[k]) != value@,
        decreases values@.len() - index,
    {
        proof {
            assert(texts(values@)[index as int] == values@[index as int]@);
        }
        if same_text(values[index].as_str(), value) {
            return true;
        }
        index += 1;
    }
    false
}

/// A call with what it reaches.
pub open spec fn with_outcome(call: SiteModel, outcome: OutcomeModel) -> SiteModel {
    SiteModel { target: outcome.target, label: outcome.label, ..call }
}

/// A call of the source that rustc did not see: none where it has to be
/// confirmed or only builds a value, else the call of a closure or the call
/// as it stands.
pub open spec fn unseen_call(
    input: InputModel,
    owner: SymbolModel,
    call: SiteModel,
    function: SemanticModel,
) -> Option<(SiteModel, Seq<SymbolModel>)> {
    if call.syntax is CompilerConfirmed || constructs(call, function) {
        None
    } else {
        match called_lambda(input.functions, owner, call.syntax) {
            Some(index) => {
                let outcome = closure_outcome(input, input.functions[index], call.label);
                Some((with_outcome(call, outcome), outcome.required))
            },
            None => Some((call, Seq::empty())),
        }
    }
}

/// A call of the source with what rustc says of it.
pub open spec fn seen_call(
    input: InputModel,
    owner: SymbolModel,
    call: SiteModel,
    semantic: SemanticCallModel,
) -> (SiteModel, Seq<SymbolModel>) {
    let outcome = call_outcome(input, owner, call, effective_target(input, semantic.target));
    let label = LabelModel {
        default: outcome.label.default,
        typed: Some(annotated(outcome.label.default, types_of_arguments(semantic))),
    };
    (with_outcome(call, OutcomeModel { label, ..outcome }), outcome.required)
}

fn site_with(call: &CallSite, target: CallTarget, label: CallLabel) -> (result: CallSite)
    ensures
        result@ == (SiteModel { target: target@, label: label@, ..call@ }),
{
    CallSite {
        id: call.id.clone(),
        syntax: call.syntax.clone(),
        target,
        label,
        span: call.span.clone(),
    }
}

/// A merged call and the closures that it needs.
pub open spec fn optional_merged(call: Option<(CallSite, Vec<SymbolId>)>) -> Option<
    (SiteModel, Seq<SymbolModel>),
> {
    match call {
        Some((call, required)) => Some((call@, views(required@))),
        None => None,
    }
}

fn merge_unseen_call(
    input: &MergeInput,
    owner: &FunctionInfo,
    call: &CallSite,
    function: &SemanticFunction,
) -> (result: Option<(CallSite, Vec<SymbolId>)>)
    ensures
        optional_merged(result) == unseen_call(input@, owner@.id, call@, function@),
{
    if call.syntax.requires_compiler_confirmation() || is_constructor(call, function) {
        return None;
    }
    match source_closure_for_call(owner, call, input.functions) {
        Some(index) => {
            proof {
                assert(input@.functions[index as int] == input.functions@[index as int]@);
            }
            let outcome = resolve_closure(input, &input.functions[index], &call.label);
            Some((site_with(call, outcome.target, outcome.label), outcome.required))
        },
        None => {
            let required: Vec<SymbolId> = Vec::new();
            proof {
                assert(views(required@) =~= Seq::empty());
            }
            Some((call.clone(), required))
        },
    }
}

fn merge_seen_call(
    input: &MergeInput,
    owner: &FunctionInfo,
    call: &CallSite,
    semantic: &SemanticCall,
) -> (result: (CallSite, Vec<SymbolId>))
    ensures
        (result.0@, views(result.1@)) == seen_call(input@, owner@.id, call@, semantic@),
{
    let target = match &semantic.target {
        SemanticCallTarget::Direct { key, display: _ } => match find_value(
            input.forwarders,
            key.as_str(),
        ) {
            Some(forwarded) => forwarded,
            None => &semantic.target,
        },
        _ => &semantic.target,
    };
    let outcome = resolve_target(input, owner, call, target);
    let types = semantic_call_argument_types(semantic);
    let typed = annotate_rust_label(outcome.label.default.as_str(), &types);
    let label = CallLabel { default: outcome.label.default, typed: Some(typed) };
    (site_with(call, outcome.target, label), outcome.required)
}

/// The merged calls of a function, the calls of rustc that they claimed, and
/// the closures that they need.
#[verifier::ext_equal]
pub struct CallsModel {
    pub calls: Seq<SiteModel>,
    pub claimed: Seq<usize>,
    pub required: Seq<SymbolModel>,
}

/// The first `count` calls of the source merged with the calls of an instance.
pub open spec fn merged_calls(
    input: InputModel,
    template: FunctionModel,
    function: SemanticModel,
    count: int,
) -> CallsModel
    decreases count,
{
    if count <= 0 {
        CallsModel { calls: Seq::empty(), claimed: Seq::empty(), required: Seq::empty() }
    } else {
        let before = merged_calls(input, template, function, count - 1);
        let call = template.calls[count - 1];
        match best_call(
            call,
            function.calls,
            before.claimed,
            input.known,
            function.calls.len() as int,
        ) {
            Some(index) => {
                let (merged, required) = seen_call(
                    input,
                    template.id,
                    call,
                    function.calls[index],
                );
                CallsModel {
                    calls: before.calls.push(merged),
                    claimed: before.claimed.push(index as usize),
                    required: before.required + required,
                }
            },
            None => match unseen_call(input, template.id, call, function) {
                Some((merged, required)) => CallsModel {
                    calls: before.calls.push(merged),
                    claimed: before.claimed,
                    required: before.required + required,
                },
                None => before,
            },
        }
    }
}

/// The calls of a function of the source, merged with those of an instance,
/// and the closures that they need.
pub fn merge_calls(input: &MergeInput, template: &FunctionInfo, function: &SemanticFunction) -> (
    result: (Vec<CallSite>, Vec<SymbolId>))
    ensures
        crate::model::site_models(result.0@) == merged_calls(
            input@,
            template@,
            function@,
            template@.calls.len() as int,
        ).calls,
        views(result.1@) == merged_calls(
            input@,
            template@,
            function@,
            template@.calls.len() as int,
        ).required,
{
    let mut calls: Vec<CallSite> = Vec::new();
    let mut claimed: Vec<usize> = Vec::new();
    let mut required: Vec<SymbolId> = Vec::new();
    let mut index: usize = 0;
    proof {
        assert(crate::model::site_models(calls@) =~= Seq::empty());
        assert(views(required@) =~= Seq::empty());
    }
    while index < template.calls.len()
        invariant
            index <= template.calls@.len(),
            crate::model::site_models(calls@) == merged_calls(
                input@,
                template@,
                function@,
                index as int,
            ).calls,
            claimed@ == merged_calls(input@, template@, function@, index as int).claimed,
            views(required@) == merged_calls(input@, template@, function@, index as int).required,
        decreases template.calls@.len() - index,
    {
        let call = &template.calls[index];
        let ghost before = crate::model::site_models(calls@);
        let ghost needed = views(required@);
        proof {
            assert(template@.calls[index as int] == call@);
        }
        match best_semantic_call(call, &function.calls, &claimed, input.identities) {
            Some(found) => {
                proof {
                    assert(function@.calls[found as int] == function.calls@[found as int]@);
                }
                let (merged, mut more) = merge_seen_call(
                    input,
                    template,
                    call,
                    &function.calls[found],
                );
                let ghost added = views(more@);
                claimed.push(found);
                calls.push(merged);
                required.append(&mut more);
                proof {
                    assert(crate::model::site_models(calls@) =~= before.push(merged@));
                    assert(views(required@) =~= needed + added);
                }
            },
            None => {
                match merge_unseen_call(input, template, call, function) {
                    Some((merged, mut more)) => {
                        let ghost added = views(more@);
                        calls.push(merged);
                        required.append(&mut more);
                        proof {
                            assert(crate::model::site_models(calls@) =~= before.push(merged@));
                            assert(views(required@) =~= needed + added);
                        }
                    },
                    None => {},
                }
            },
        }
        index += 1;
    }
    (calls, required)
}

} // verus!
