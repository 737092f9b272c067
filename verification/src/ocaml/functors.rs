//! The functions of OCaml functors, for each module that a functor is applied
//! to.
use crate::lists::views;
use crate::model::{
    candidate_models, symbol_text, CallLabel, CallSite, CallSyntax, CallTarget, CandidateModel,
    DispatchCandidate, FactModel, FileAnalysis, FunctionInfo, FunctionModel, LabelModel,
    LanguageFact, SiteModel, SymbolId, SymbolModel, SyntaxModel, TargetModel,
};
use crate::ocaml::aliases::{
    find_module_seen_from, joined_lists, list_starts_with, make_own_module, module_seen_from,
    own_module, starts_with_parts,
};
use crate::ocaml::specialize::{facts_retold, retell_facts};
use crate::ocaml::symbols::{find_function_at, function_at};
use crate::paths::some_texts;
use crate::text::{
    concat_texts, join_texts, joined, optional, pieces, replace_text_once, replaced_once,
    same_list, same_text, split_text, texts,
};
use vstd::prelude::*;

verus! {

/// The names of the parameters of a functor, by the first `count` facts.
pub open spec fn functor_parameters(
    facts: Seq<FactModel>,
    module: Seq<Seq<char>>,
    count: int,
) -> Seq<Seq<char>>
    decreases count,
{
    if count <= 0 {
        Seq::empty()
    } else {
        let before = functor_parameters(facts, module, count - 1);
        let fact = facts[count - 1];
        if fact.kind == "functor-parameter"@ && own_module(fact.subject) == module {
            before.push(fact.value)
        } else {
            before
        }
    }
}

fn find_functor_parameters(facts: &Vec<LanguageFact>, module: &Vec<String>) -> (result: Vec<String>)
    ensures
        texts(result@) == functor_parameters(
            views(facts@),
            texts(module@),
            facts@.len() as int,
        ),
{
    let mut result: Vec<String> = Vec::new();
    let mut index: usize = 0;
    proof {
        assert(texts(result@) =~= Seq::empty());
    }
    while index < facts.len()
        invariant
            index <= facts@.len(),
            texts(result@) == functor_parameters(views(facts@), texts(module@), index as int),
        decreases facts@.len() - index,
    {
        let fact = &facts[index];
        proof {
            assert(views(facts@)[index as int] == facts@[index as int]@);
        }
        if same_text(fact.kind.as_str(), "functor-parameter") && same_list(
            &make_own_module(&fact.subject),
            module,
        ) {
            let ghost before = texts(result@);
            result.push(fact.value.clone());
            proof {
                assert(texts(result@) =~= before.push(fact.value@));
            }
        }
        index += 1;
    }
    result
}

/// The functor that is applied: one below the module of the instance, or one
/// of its whole path.
pub open spec fn applied_functor(facts: Seq<FactModel>, instance: FactModel) -> Seq<Seq<char>> {
    let raw = pieces(instance.key, "."@);
    let relative = instance.subject.module + raw;
    if functor_parameters(facts, relative, facts.len() as int).len() > 0 {
        relative
    } else {
        raw
    }
}

fn find_applied_functor(facts: &Vec<LanguageFact>, instance: &LanguageFact) -> (result: Vec<String>)
    ensures
        texts(result@) == applied_functor(views(facts@), instance@),
{
    proof {
        reveal_strlit(".");
        assert(views(facts@).len() == facts@.len());
    }
    let raw = split_text(instance.key.as_str(), ".");
    let relative = joined_lists(&instance.subject.module, &raw);
    let parameters = find_functor_parameters(facts, &relative);
    proof {
        assert(texts(parameters@).len() == parameters@.len());
    }
    if parameters.len() > 0 {
        relative
    } else {
        raw
    }
}

/// The modules that a functor is applied to, by the first `count` pieces of a
/// text.
pub open spec fn applied_modules(
    functions: Seq<FunctionModel>,
    module: Seq<Seq<char>>,
    values: Seq<Seq<char>>,
    count: int,
) -> Seq<Seq<Seq<char>>>
    decreases count,
{
    if count <= 0 {
        Seq::empty()
    } else {
        let before = applied_modules(functions, module, values, count - 1);
        if values[count - 1].len() > 0 {
            before.push(module_seen_from(functions, module, values[count - 1]))
        } else {
            before
        }
    }
}

/// A module path.
#[derive(Debug)]
pub struct ModulePath {
    pub parts: Vec<String>,
}

impl View for ModulePath {
    type V = Seq<Seq<char>>;

    open spec fn view(&self) -> Seq<Seq<char>> {
        texts(self.parts@)
    }
}

fn find_applied_modules(functions: &Vec<FunctionInfo>, instance: &LanguageFact) -> (result: Vec<
    ModulePath,
>)
    ensures
        views(result@) == ({
            let values = pieces(instance@.value, "\t"@);
            applied_modules(
                views(functions@),
                instance@.subject.module,
                values,
                values.len() as int,
            )
        }),
{
    proof {
        reveal_strlit("\t");
    }
    let values = split_text(instance.value.as_str(), "\t");
    let mut result: Vec<ModulePath> = Vec::new();
    let mut index: usize = 0;
    proof {
        assert(views(result@) =~= Seq::empty());
        assert(texts(values@).len() == values@.len());
    }
    while index < values.len()
        invariant
            index <= values@.len(),
            views(result@) == applied_modules(
                views(functions@),
                instance@.subject.module,
                texts(values@),
                index as int,
            ),
        decreases values@.len() - index,
    {
        proof {
            assert(texts(values@)[index as int] == values@[index as int]@);
        }
        if crate::text::chars_of(values[index].as_str()).len() > 0 {
            let ghost before = views(result@);
            let path = ModulePath {
                parts: find_module_seen_from(
                    functions,
                    &instance.subject.module,
                    values[index].as_str(),
                ),
            };
            let ghost model = path@;
            result.push(path);
            proof {
                assert(views(result@) =~= before.push(model));
            }
        }
        index += 1;
    }
    result
}

/// What is put in place of what: the module of a functor and the module of an
/// instance of it.
pub struct FunctorMove<'a> {
    pub functions: &'a Vec<FunctionInfo>,
    pub functor: &'a Vec<String>,
    pub instance: &'a Vec<String>,
}

pub struct MoveModel {
    pub functions: Seq<FunctionModel>,
    pub functor: Seq<Seq<char>>,
    pub instance: Seq<Seq<char>>,
}

impl<'a> View for FunctorMove<'a> {
    type V = MoveModel;

    open spec fn view(&self) -> MoveModel {
        MoveModel {
            functions: views(self.functions@),
            functor: texts(self.functor@),
            instance: texts(self.instance@),
        }
    }
}

/// The identity of a function of a functor in an instance.
pub open spec fn moved_id(shift: MoveModel, id: SymbolModel) -> SymbolModel {
    SymbolModel { module: shift.instance + id.module.skip(shift.functor.len() as int), ..id }
}

/// What becomes of a symbol, if it is a function of the functor.
pub open spec fn moved_symbol(shift: MoveModel, id: SymbolModel) -> Option<SymbolModel> {
    if list_starts_with(id.module, shift.functor) && function_at(shift.functions, id) is Some {
        Some(moved_id(shift, id))
    } else {
        None
    }
}

fn move_id(shift: &FunctorMove, id: &SymbolId) -> (result: SymbolId)
    requires
        list_starts_with(id@.module, shift@.functor),
    ensures
        result@ == moved_id(shift@, id@),
{
    proof {
        assert(texts(id.module@).len() == id.module@.len());
        assert(texts(shift.functor@).len() == shift.functor@.len());
        assert(texts(id.module@).subrange(shift.functor@.len() as int, id.module@.len() as int)
            =~= texts(id.module@).skip(shift.functor@.len() as int));
    }
    let rest = some_texts(&id.module, shift.functor.len(), id.module.len());
    let mut result = id.clone();
    result.module = joined_lists(shift.instance, &rest);
    result
}

fn move_symbol(shift: &FunctorMove, id: &SymbolId) -> (result: Option<SymbolId>)
    ensures
        crate::ocaml::symbols::optional_symbol(result) == moved_symbol(shift@, id@),
{
    if starts_with_parts(&id.module, shift.functor) && find_function_at(
        shift.functions,
        id,
    ).is_some() {
        Some(move_id(shift, id))
    } else {
        None
    }
}

/// The first function of the functor, from `index` on, that a text names.
pub open spec fn named_owner(shift: MoveModel, text: Seq<char>, index: int) -> Option<int>
    decreases shift.functions.len() - index,
{
    if index < 0 || index >= shift.functions.len() {
        None
    } else if list_starts_with(shift.functions[index].id.module, shift.functor) && symbol_text(
        shift.functions[index].id,
    ) == text {
        Some(index)
    } else {
        named_owner(shift, text, index + 1)
    }
}

/// What becomes of a container, if it is a function of the functor.
pub open spec fn moved_container(shift: MoveModel, container: Option<Seq<char>>) -> Option<
    Seq<char>,
> {
    match container {
        Some(text) => match named_owner(shift, text, 0) {
            Some(place) => Some(symbol_text(moved_id(shift, shift.functions[place].id))),
            None => Some(text),
        },
        None => None,
    }
}

fn move_container(shift: &FunctorMove, container: &Option<String>) -> (result: Option<String>)
    ensures
        optional(result) == moved_container(shift@, optional(*container)),
{
    let text = match container {
        Some(text) => text,
        None => {
            return None;
        },
    };
    let ghost model = shift@;
    let mut index: usize = 0;
    proof {
        assert(model.functions.len() == shift.functions@.len());
    }
    while index < shift.functions.len()
        invariant
            index <= shift.functions@.len(),
            model == shift@,
            model.functions.len() == shift.functions@.len(),
            optional(*container) == Some(text@),
            named_owner(model, text@, index as int) == named_owner(model, text@, 0),
        decreases shift.functions@.len() - index,
    {
        let function = &shift.functions[index];
        proof {
            assert(model.functions[index as int] == shift.functions@[index as int]@);
        }
        if starts_with_parts(&function.id.module, shift.functor) && same_text(
            function.id.to_text().as_str(),
            text.as_str(),
        ) {
            return Some(move_id(shift, &function.id).to_text());
        }
        index += 1;
    }
    Some(text.clone())
}

/// A label with the path of one module in place of that of another.
pub open spec fn relabeled(label: LabelModel, from: Seq<char>, to: Seq<char>) -> LabelModel {
    LabelModel {
        default: replaced_once(label.default, from, to),
        typed: match label.typed {
            Some(typed) => Some(replaced_once(typed, from, to)),
            None => None,
        },
    }
}

fn relabel(label: &CallLabel, from: &str, to: &str) -> (result: CallLabel)
    ensures
        result@ == relabeled(label@, from@, to@),
{
    CallLabel {
        default: replace_text_once(label.default.as_str(), from, to),
        typed: match &label.typed {
            Some(typed) => Some(replace_text_once(typed.as_str(), from, to)),
            None => None,
        },
    }
}

/// The path of a module, with the dot behind it.
pub open spec fn module_prefix(module: Seq<Seq<char>>) -> Seq<char> {
    joined(module, "."@) + "."@
}

fn make_module_prefix(module: &Vec<String>) -> (result: String)
    ensures
        result@ == module_prefix(texts(module@)),
{
    concat_texts(join_texts(module, ".").as_str(), ".")
}

/// The syntax of a call, with a module in place of a parameter.
pub open spec fn rewritten_syntax(
    syntax: SyntaxModel,
    parameter: Seq<char>,
    module: Seq<Seq<char>>,
) -> SyntaxModel
    decreases syntax,
{
    match syntax {
        SyntaxModel::Path(parts) => if parts.len() > 0 && parts[0] == parameter {
            SyntaxModel::Path(module + parts.skip(1))
        } else {
            syntax
        },
        SyntaxModel::CompilerConfirmed(inner) => SyntaxModel::CompilerConfirmed(
            Box::new(rewritten_syntax(*inner, parameter, module)),
        ),
        _ => syntax,
    }
}

/// The syntax of a call, with a module in place of a parameter.
pub fn rewrite_functor_syntax(syntax: &CallSyntax, parameter: &str, module: &Vec<String>) -> (result:
    CallSyntax)
    ensures
        result@ == rewritten_syntax(syntax@, parameter@, texts(module@)),
    decreases syntax,
{
    match syntax {
        CallSyntax::Path(parts) => {
            proof {
                assert(texts(parts@).len() == parts@.len());
            }
            if parts.len() > 0 {
                proof {
                    assert(texts(parts@)[0] == parts@[0]@);
                    assert(texts(parts@).subrange(1, parts@.len() as int) =~= texts(parts@).skip(1));
                }
                if same_text(parts[0].as_str(), parameter) {
                    return CallSyntax::Path(
                        joined_lists(module, &some_texts(parts, 1, parts.len())),
                    );
                }
            }
            syntax.clone()
        },
        CallSyntax::CompilerConfirmed(inner) => CallSyntax::CompilerConfirmed(
            Box::new(rewrite_functor_syntax(&**inner, parameter, module)),
        ),
        _ => syntax.clone(),
    }
}

/// The candidates of a call, those of the functor moved.
pub open spec fn moved_candidates(shift: MoveModel, candidates: Seq<CandidateModel>) -> Seq<
    CandidateModel,
> {
    candidates.map_values(
        |candidate: CandidateModel|
            CandidateModel {
                target: match moved_symbol(shift, candidate.target) {
                    Some(symbol) => symbol,
                    None => candidate.target,
                },
                ..candidate
            },
    )
}

fn move_candidates(shift: &FunctorMove, candidates: &Vec<DispatchCandidate>) -> (result: Vec<
    DispatchCandidate,
>)
    ensures
        candidate_models(result@) == moved_candidates(shift@, candidate_models(candidates@)),
{
    let ghost model = moved_candidates(shift@, candidate_models(candidates@));
    let mut result: Vec<DispatchCandidate> = Vec::new();
    let mut index: usize = 0;
    while index < candidates.len()
        invariant
            index <= candidates@.len(),
            result@.len() == index,
            model == moved_candidates(shift@, candidate_models(candidates@)),
            forall|k: int| 0 <= k < index ==> (#[trigger] result@[k])@ == model[k],
        decreases candidates@.len() - index,
    {
        let mut candidate = candidates[index].clone();
        if let Some(symbol) = move_symbol(shift, &candidate.target) {
            candidate.target = symbol;
        }
        proof {
            assert(candidate_models(candidates@)[index as int] == candidates@[index as int]@);
        }
        result.push(candidate);
        index += 1;
    }
    proof {
        assert(candidate_models(result@) =~= model);
    }
    result
}

/// What a call of a functor reaches in an instance.
pub open spec fn moved_target(shift: MoveModel, target: TargetModel) -> TargetModel {
    match target {
        TargetModel::Direct(symbol) => match moved_symbol(shift, symbol) {
            Some(moved) => TargetModel::Direct(moved),
            None => TargetModel::Direct(
                SymbolModel { container: moved_container(shift, symbol.container), ..symbol },
            ),
        },
        TargetModel::Dynamic {
            dispatch,
            candidates,
            resolution,
            evidence,
            unresolved_reasons,
        } => TargetModel::Dynamic {
            dispatch: match moved_symbol(shift, dispatch) {
                Some(moved) => moved,
                None => dispatch,
            },
            candidates: moved_candidates(shift, candidates),
            resolution,
            evidence,
            unresolved_reasons,
        },
        _ => target,
    }
}

fn move_target(shift: &FunctorMove, target: &CallTarget) -> (result: CallTarget)
    ensures
        result@ == moved_target(shift@, target@),
{
    match target {
        CallTarget::Direct(symbol) => match move_symbol(shift, symbol) {
            Some(moved) => CallTarget::Direct(moved),
            None => {
                let mut kept = symbol.clone();
                kept.container = move_container(shift, &symbol.container);
                CallTarget::Direct(kept)
            },
        },
        CallTarget::Dynamic {
            dispatch,
            candidates,
            resolution,
            evidence,
            unresolved_reasons,
        } => CallTarget::Dynamic {
            dispatch: match move_symbol(shift, dispatch) {
                Some(moved) => moved,
                None => dispatch.clone(),
            },
            candidates: move_candidates(shift, candidates),
            resolution: *resolution,
            evidence: *evidence,
            unresolved_reasons: crate::model::copy_reasons(unresolved_reasons),
        },
        _ => target.clone(),
    }
}

/// A call of a functor, with a module in place of a parameter.
pub open spec fn rewritten_call(
    shift: MoveModel,
    call: SiteModel,
    parameter: Seq<char>,
    module: Seq<Seq<char>>,
) -> SiteModel {
    SiteModel {
        syntax: rewritten_syntax(call.syntax, parameter, module),
        label: relabeled(call.label, parameter + "."@, module_prefix(module)),
        target: moved_target(shift, call.target),
        ..call
    }
}

/// Puts a module in place of a parameter in a call of a functor.
pub fn rewrite_functor_call(
    shift: &FunctorMove,
    call: &CallSite,
    parameter: &str,
    module: &Vec<String>,
) -> (result: CallSite)
    ensures
        result@ == rewritten_call(shift@, call@, parameter@, texts(module@)),
{
    CallSite {
        id: call.id.clone(),
        syntax: rewrite_functor_syntax(&call.syntax, parameter, module),
        target: move_target(shift, &call.target),
        label: relabel(
            &call.label,
            concat_texts(parameter, ".").as_str(),
            make_module_prefix(module).as_str(),
        ),
        span: call.span.clone(),
    }
}

/// A call of a functor, with modules in place of the first `count`
/// parameters.
pub open spec fn applied_call(
    shift: MoveModel,
    call: SiteModel,
    parameters: Seq<Seq<char>>,
    modules: Seq<Seq<Seq<char>>>,
    count: int,
) -> SiteModel
    decreases count,
{
    if count <= 0 {
        call
    } else {
        rewritten_call(
            shift,
            applied_call(shift, call, parameters, modules, count - 1),
            parameters[count - 1],
            modules[count - 1],
        )
    }
}

fn apply_to_call(
    shift: &FunctorMove,
    call: &CallSite,
    parameters: &Vec<String>,
    modules: &Vec<ModulePath>,
) -> (result: CallSite)
    requires
        parameters@.len() == modules@.len(),
    ensures
        result@ == applied_call(
            shift@,
            call@,
            texts(parameters@),
            views(modules@),
            parameters@.len() as int,
        ),
{
    let mut result = call.clone();
    let mut index: usize = 0;
    while index < parameters.len()
        invariant
            index <= parameters@.len(),
            parameters@.len() == modules@.len(),
            result@ == applied_call(
                shift@,
                call@,
                texts(parameters@),
                views(modules@),
                index as int,
            ),
        decreases parameters@.len() - index,
    {
        proof {
            assert(texts(parameters@)[index as int] == parameters@[index as int]@);
            assert(views(modules@)[index as int] == modules@[index as int]@);
        }
        result = rewrite_functor_call(
            shift,
            &result,
            parameters[index].as_str(),
            &modules[index].parts,
        );
        index += 1;
    }
    result
}

/// The calls of a function of a functor in an instance.
pub open spec fn applied_calls(
    shift: MoveModel,
    calls: Seq<SiteModel>,
    parameters: Seq<Seq<char>>,
    modules: Seq<Seq<Seq<char>>>,
) -> Seq<SiteModel> {
    calls.map_values(
        |call: SiteModel|
            applied_call(shift, call, parameters, modules, parameters.len() as int),
    )
}

/// A function of a functor in an instance.
pub open spec fn instance_function(
    shift: MoveModel,
    function: FunctionModel,
    parameters: Seq<Seq<char>>,
    modules: Seq<Seq<Seq<char>>>,
) -> FunctionModel {
    let id = moved_id(shift, function.id);
    FunctionModel {
        id: SymbolModel { container: moved_container(shift, id.container), ..id },
        label: relabeled(
            function.label,
            module_prefix(shift.functor),
            module_prefix(shift.instance),
        ),
        calls: applied_calls(shift, function.calls, parameters, modules),
        ..function
    }
}

fn make_instance_function(
    shift: &FunctorMove,
    function: &FunctionInfo,
    parameters: &Vec<String>,
    modules: &Vec<ModulePath>,
) -> (result: FunctionInfo)
    requires
        parameters@.len() == modules@.len(),
        list_starts_with(function@.id.module, shift@.functor),
    ensures
        result@ == instance_function(
            shift@,
            function@,
            texts(parameters@),
            views(modules@),
        ),
{
    let ghost wanted = applied_calls(
        shift@,
        function@.calls,
        texts(parameters@),
        views(modules@),
    );
    let mut calls: Vec<CallSite> = Vec::new();
    let mut index: usize = 0;
    proof {
        assert(texts(parameters@).len() == parameters@.len());
    }
    while index < function.calls.len()
        invariant
            index <= function.calls@.len(),
            calls@.len() == index,
            parameters@.len() == modules@.len(),
            texts(parameters@).len() == parameters@.len(),
            wanted == applied_calls(
                shift@,
                function@.calls,
                texts(parameters@),
                views(modules@),
            ),
            forall|k: int| 0 <= k < index ==> (#[trigger] calls@[k])@ == wanted[k],
        decreases function.calls@.len() - index,
    {
        proof {
            assert(function@.calls[index as int] == function.calls@[index as int]@);
        }
        calls.push(apply_to_call(shift, &function.calls[index], parameters, modules));
        index += 1;
    }
    let mut id = move_id(shift, &function.id);
    id.container = move_container(shift, &id.container);
    let result = FunctionInfo {
        id,
        label: relabel(
            &function.label,
            make_module_prefix(shift.functor).as_str(),
            make_module_prefix(shift.instance).as_str(),
        ),
        public: function.public,
        calls,
        span: function.span.clone(),
    };
    proof {
        assert(result@.calls =~= wanted);
    }
    result
}

/// The functions of a functor among the first `count`, in an instance, each
/// with its identity in the functor.
pub open spec fn instance_functions(
    shift: MoveModel,
    parameters: Seq<Seq<char>>,
    modules: Seq<Seq<Seq<char>>>,
    count: int,
) -> Seq<(SymbolModel, FunctionModel)>
    decreases count,
{
    if count <= 0 {
        Seq::empty()
    } else {
        let before = instance_functions(shift, parameters, modules, count - 1);
        let function = shift.functions[count - 1];
        if list_starts_with(function.id.module, shift.functor) {
            before.push(
                (function.id, instance_function(shift, function, parameters, modules)),
            )
        } else {
            before
        }
    }
}

/// A function of an instance, with its identity in the functor.
#[derive(Debug)]
pub struct InstanceFunction {
    pub old_id: SymbolId,
    pub function: FunctionInfo,
}

impl View for InstanceFunction {
    type V = (SymbolModel, FunctionModel);

    open spec fn view(&self) -> (SymbolModel, FunctionModel) {
        (self.old_id@, self.function@)
    }
}

fn make_instance_functions(
    shift: &FunctorMove,
    parameters: &Vec<String>,
    modules: &Vec<ModulePath>,
) -> (result: Vec<InstanceFunction>)
    requires
        parameters@.len() == modules@.len(),
    ensures
        views(result@) == instance_functions(
            shift@,
            texts(parameters@),
            views(modules@),
            shift.functions@.len() as int,
        ),
{
    let mut result: Vec<InstanceFunction> = Vec::new();
    let mut index: usize = 0;
    proof {
        assert(views(result@) =~= Seq::empty());
    }
    while index < shift.functions.len()
        invariant
            index <= shift.functions@.len(),
            parameters@.len() == modules@.len(),
            views(result@) == instance_functions(
                shift@,
                texts(parameters@),
                views(modules@),
                index as int,
            ),
        decreases shift.functions@.len() - index,
    {
        let function = &shift.functions[index];
        proof {
            assert(shift@.functions[index as int] == function@);
        }
        if starts_with_parts(&function.id.module, shift.functor) {
            let ghost before = views(result@);
            let item = InstanceFunction {
                old_id: function.id.clone(),
                function: make_instance_function(shift, function, parameters, modules),
            };
            let ghost model = item@;
            result.push(item);
            proof {
                assert(views(result@) =~= before.push(model));
            }
        }
        index += 1;
    }
    result
}

/// What is said of the first `count` functions of an instance.
pub open spec fn instance_facts(
    facts: Seq<FactModel>,
    clones: Seq<(SymbolModel, FunctionModel)>,
    count: int,
) -> Seq<FactModel>
    decreases count,
{
    if count <= 0 {
        Seq::empty()
    } else {
        instance_facts(facts, clones, count - 1) + facts_retold(
            facts,
            clones[count - 1].0,
            clones[count - 1].1.id,
            facts.len() as int,
        )
    }
}

fn make_instance_facts(facts: &Vec<LanguageFact>, clones: &Vec<InstanceFunction>) -> (result: Vec<
    LanguageFact,
>)
    ensures
        views(result@) == instance_facts(views(facts@), views(clones@), clones@.len() as int),
{
    let mut result: Vec<LanguageFact> = Vec::new();
    let mut index: usize = 0;
    proof {
        assert(views(result@) =~= Seq::empty());
        assert(views(facts@).len() == facts@.len());
    }
    while index < clones.len()
        invariant
            index <= clones@.len(),
            views(facts@).len() == facts@.len(),
            views(result@) == instance_facts(views(facts@), views(clones@), index as int),
        decreases clones@.len() - index,
    {
        proof {
            assert(views(clones@)[index as int] == clones@[index as int]@);
        }
        let ghost before = views(result@);
        let mut more = retell_facts(facts, &clones[index].old_id, &clones[index].function.id);
        let ghost added = views(more@);
        result.append(&mut more);
        proof {
            assert(views(result@) =~= before + added);
        }
        index += 1;
    }
    result
}

/// The functions of an instance among the first `count` that are not there
/// yet.
pub open spec fn new_functions(
    existing: Seq<FunctionModel>,
    clones: Seq<(SymbolModel, FunctionModel)>,
    count: int,
) -> Seq<FunctionModel>
    decreases count,
{
    if count <= 0 {
        Seq::empty()
    } else {
        let before = new_functions(existing, clones, count - 1);
        if function_at(existing, clones[count - 1].1.id) is Some {
            before
        } else {
            before.push(clones[count - 1].1)
        }
    }
}

fn find_new_functions(existing: &Vec<FunctionInfo>, clones: &Vec<InstanceFunction>) -> (result: Vec<
    FunctionInfo,
>)
    ensures
        views(result@) == new_functions(views(existing@), views(clones@), clones@.len() as int),
{
    let mut result: Vec<FunctionInfo> = Vec::new();
    let mut index: usize = 0;
    proof {
        assert(views(result@) =~= Seq::empty());
    }
    while index < clones.len()
        invariant
            index <= clones@.len(),
            views(result@) == new_functions(views(existing@), views(clones@), index as int),
        decreases clones@.len() - index,
    {
        proof {
            assert(views(clones@)[index as int] == clones@[index as int]@);
        }
        if find_function_at(existing, &clones[index].function.id).is_none() {
            let ghost before = views(result@);
            let function = clones[index].function.clone();
            let ghost model = function@;
            result.push(function);
            proof {
                assert(views(result@) =~= before.push(model));
            }
        }
        index += 1;
    }
    result
}

/// The functions and facts with those of one instance of a functor. An
/// application of what is no functor, or to another number of modules than the
/// functor has parameters, adds nothing.
pub open spec fn with_instance(
    base: (Seq<FunctionModel>, Seq<FactModel>),
    state: (Seq<FunctionModel>, Seq<FactModel>),
    instance: FactModel,
) -> (Seq<FunctionModel>, Seq<FactModel>) {
    let functor = applied_functor(base.1, instance);
    let parameters = functor_parameters(base.1, functor, base.1.len() as int);
    let values = pieces(instance.value, "\t"@);
    let modules = applied_modules(
        base.0,
        instance.subject.module,
        values,
        values.len() as int,
    );
    if parameters.len() == 0 || parameters.len() != modules.len() {
        state
    } else {
        let shift = MoveModel {
            functions: base.0,
            functor,
            instance: own_module(instance.subject),
        };
        let clones = instance_functions(shift, parameters, modules, base.0.len() as int);
        (
            state.0 + new_functions(state.0, clones, clones.len() as int),
            state.1 + instance_facts(base.1, clones, clones.len() as int),
        )
    }
}

fn add_instance(
    base_functions: &Vec<FunctionInfo>,
    base_facts: &Vec<LanguageFact>,
    functions: &mut Vec<FunctionInfo>,
    facts: &mut Vec<LanguageFact>,
    instance: &LanguageFact,
)
    ensures
        (views(final(functions)@), views(final(facts)@)) == with_instance(
            (views(base_functions@), views(base_facts@)),
            (views(old(functions)@), views(old(facts)@)),
            instance@,
        ),
{
    let ghost state = (views(functions@), views(facts@));
    let functor = find_applied_functor(base_facts, instance);
    let parameters = find_functor_parameters(base_facts, &functor);
    let modules = find_applied_modules(base_functions, instance);
    proof {
        assert(views(base_facts@).len() == base_facts@.len());
        assert(views(base_functions@).len() == base_functions@.len());
        assert(texts(parameters@).len() == parameters@.len());
        assert(views(modules@).len() == modules@.len());
    }
    if parameters.len() == 0 || parameters.len() != modules.len() {
        return ;
    }
    let module = make_own_module(&instance.subject);
    let shift = FunctorMove { functions: base_functions, functor: &functor, instance: &module };
    let clones = make_instance_functions(&shift, &parameters, &modules);
    proof {
        assert(views(clones@).len() == clones@.len());
    }
    let mut told = make_instance_facts(base_facts, &clones);
    let ghost new_facts = views(told@);
    facts.append(&mut told);
    let mut more = find_new_functions(functions, &clones);
    let ghost added = views(more@);
    functions.append(&mut more);
    proof {
        assert(views(facts@) =~= state.1 + new_facts);
        assert(views(functions@) =~= state.0 + added);
    }
}

/// The functions and facts with those of the instances among the first
/// `count` facts.
pub open spec fn with_instances(
    base: (Seq<FunctionModel>, Seq<FactModel>),
    count: int,
) -> (Seq<FunctionModel>, Seq<FactModel>)
    decreases count,
{
    if count <= 0 {
        base
    } else {
        let before = with_instances(base, count - 1);
        if base.1[count - 1].kind == "functor-instance"@ {
            with_instance(base, before, base.1[count - 1])
        } else {
            before
        }
    }
}

/// Adds the functions of functors, for each module that a functor is applied
/// to.
pub fn instantiate_ocaml_functors(analysis: &mut FileAnalysis)
    ensures
        ({
            let base = (old(analysis)@.functions, old(analysis)@.facts);
            let grown = with_instances(base, base.1.len() as int);
            final(analysis)@ == (crate::model::AnalysisModel {
                functions: grown.0,
                facts: grown.1,
                ..old(analysis)@
            })
        }),
{
    let ghost start = analysis@;
    let base_functions = crate::lists::copy_list(&analysis.functions);
    let base_facts = crate::lists::copy_list(&analysis.facts);
    let ghost base = (views(base_functions@), views(base_facts@));
    proof {
        assert(views(analysis.functions@) =~= start.functions);
        assert(views(analysis.facts@) =~= start.facts);
        assert(base.1.len() == base_facts@.len());
    }
    let mut index: usize = 0;
    while index < base_facts.len()
        invariant
            index <= base_facts@.len(),
            base == (views(base_functions@), views(base_facts@)),
            (views(analysis.functions@), views(analysis.facts@)) == with_instances(
                base,
                index as int,
            ),
            analysis@.source_files == start.source_files,
            analysis@.roots == start.roots,
        decreases base_facts@.len() - index,
    {
        proof {
            assert(base.1[index as int] == base_facts@[index as int]@);
        }
        if same_text(base_facts[index].kind.as_str(), "functor-instance") {
            add_instance(
                &base_functions,
                &base_facts,
                &mut analysis.functions,
                &mut analysis.facts,
                &base_facts[index],
            );
        }
        index += 1;
    }
    proof {
        assert(analysis@.functions =~= views(analysis.functions@));
        assert(analysis@.facts =~= views(analysis.facts@));
    }
}

} // verus!
