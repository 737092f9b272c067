//! Putting together what rustc and the sources say of a Rust project.
use crate::files::KnownFile;
use crate::lists::{copy_list, views};
use crate::model::{
    candidate_models, same_span, site_models, symbol_less, AnalysisModel, CallLabel, CallSite,
    CallSyntax, CallTarget, DispatchCandidate, FileAnalysis, FunctionInfo, FunctionModel,
    SiteModel, SymbolModel, UnresolvedReason,
};
use crate::paths::{path_less, same_place};
use crate::rust::merge::{merge_semantic_program, merged_analysis};
use crate::rust::respecialize::{respecialize_merged_semantic_program, respecialized};
use crate::rust::semantic::{ProgramModel, SemanticFunction, SemanticModel, SemanticProgram};
use crate::text::{comes_before, same_list, same_optional, same_text, text_less};
use vstd::prelude::*;

verus! {

/// Whether a captured function comes before another: by key, file and first
/// line.
pub open spec fn captured_earlier(left: SemanticModel, right: SemanticModel) -> bool {
    text_less(left.key, right.key) || (left.key == right.key && (path_less(
        left.body_span.file,
        right.body_span.file,
    ) || (same_place(left.body_span.file, right.body_span.file) && left.body_span.start_line
        < right.body_span.start_line)))
}

fn is_captured_earlier(left: &SemanticFunction, right: &SemanticFunction) -> (result: bool)
    ensures
        result == captured_earlier(left@, right@),
{
    comes_before(left.key.as_str(), right.key.as_str()) || (same_text(
        left.key.as_str(),
        right.key.as_str(),
    ) && (left.body_span.file.before(&right.body_span.file) || (left.body_span.file.same(
        &right.body_span.file,
    ) && left.body_span.start_line < right.body_span.start_line)))
}

/// How many functions at the front, from `index` on, do not come behind a
/// function.
pub open spec fn captured_position(
    functions: Seq<SemanticModel>,
    function: SemanticModel,
    index: nat,
) -> nat
    decreases functions.len() - index,
{
    if index < functions.len() && !captured_earlier(function, functions[index as int]) {
        captured_position(functions, function, index + 1)
    } else {
        index
    }
}

/// The first `count` captured functions, in order.
pub open spec fn captured_in_order(functions: Seq<SemanticModel>, count: int) -> Seq<SemanticModel>
    decreases count,
{
    if count <= 0 {
        Seq::empty()
    } else {
        let before = captured_in_order(functions, count - 1);
        before.insert(
            captured_position(before, functions[count - 1], 0) as int,
            functions[count - 1],
        )
    }
}

fn sort_captured(functions: &Vec<SemanticFunction>) -> (result: Vec<SemanticFunction>)
    ensures
        views(result@) == captured_in_order(views(functions@), functions@.len() as int),
{
    let mut result: Vec<SemanticFunction> = Vec::new();
    let mut index: usize = 0;
    proof {
        assert(views(result@) =~= Seq::empty());
    }
    while index < functions.len()
        invariant
            index <= functions@.len(),
            views(result@) == captured_in_order(views(functions@), index as int),
        decreases functions@.len() - index,
    {
        let function = &functions[index];
        let ghost before = views(result@);
        proof {
            assert(views(functions@)[index as int] == function@);
        }
        let mut place: usize = 0;
        while place < result.len() && !is_captured_earlier(function, &result[place])
            invariant
                place <= result@.len(),
                before == views(result@),
                captured_position(before, function@, place as nat) == captured_position(
                    before,
                    function@,
                    0,
                ),
            decreases result@.len() - place,
        {
            proof {
                assert(before[place as int] == result@[place as int]@);
            }
            place += 1;
        }
        proof {
            if place < result@.len() {
                assert(before[place as int] == result@[place as int]@);
            }
        }
        result.insert(place, function.clone());
        proof {
            assert(views(result@) =~= before.insert(place as int, function@));
        }
        index += 1;
    }
    result
}

/// Whether two captured functions are one.
pub open spec fn same_capture(left: SemanticModel, right: SemanticModel) -> bool {
    left.key == right.key && same_place(left.body_span.file, right.body_span.file)
        && left.body_span.start_line == right.body_span.start_line && left.body_span.start_column
        == right.body_span.start_column
}

fn is_same_capture(left: &SemanticFunction, right: &SemanticFunction) -> (result: bool)
    ensures
        result == same_capture(left@, right@),
{
    same_text(left.key.as_str(), right.key.as_str()) && left.body_span.file.same(
        &right.body_span.file,
    ) && left.body_span.start_line == right.body_span.start_line
        && left.body_span.start_column == right.body_span.start_column
}

/// The first `count` captured functions, those left out that are one with the
/// one before.
pub open spec fn captured_once(functions: Seq<SemanticModel>, count: int) -> Seq<SemanticModel>
    decreases count,
{
    if count <= 0 {
        Seq::empty()
    } else {
        let before = captured_once(functions, count - 1);
        if before.len() > 0 && same_capture(functions[count - 1], before.last()) {
            before
        } else {
            before.push(functions[count - 1])
        }
    }
}

fn keep_captured_once(functions: &Vec<SemanticFunction>) -> (result: Vec<SemanticFunction>)
    ensures
        views(result@) == captured_once(views(functions@), functions@.len() as int),
{
    let mut result: Vec<SemanticFunction> = Vec::new();
    let mut index: usize = 0;
    proof {
        assert(views(result@) =~= Seq::empty());
    }
    while index < functions.len()
        invariant
            index <= functions@.len(),
            views(result@) == captured_once(views(functions@), index as int),
        decreases functions@.len() - index,
    {
        let function = &functions[index];
        let ghost before = views(result@);
        let length: usize = result.len();
        proof {
            assert(views(functions@)[index as int] == function@);
            assert(before.len() == length);
            if length > 0 {
                assert(before.last() == result@[length - 1]@);
            }
        }
        if !(length > 0 && is_same_capture(function, &result[length - 1])) {
            result.push(function.clone());
            proof {
                assert(views(result@) =~= before.push(function@));
            }
        }
        index += 1;
    }
    result
}

/// The functions of the first `count` programs.
pub open spec fn all_functions(programs: Seq<ProgramModel>, count: int) -> Seq<SemanticModel>
    decreases count,
{
    if count <= 0 {
        Seq::empty()
    } else {
        all_functions(programs, count - 1) + programs[count - 1].functions
    }
}

/// What rustc says of a whole project: the functions of all targets, each
/// once, specialized across the targets.
pub open spec fn captured_program(programs: Seq<ProgramModel>) -> ProgramModel {
    let functions = all_functions(programs, programs.len() as int);
    let ordered = captured_in_order(functions, functions.len() as int);
    ProgramModel {
        crate_name: ""@,
        functions: respecialized(captured_once(ordered, ordered.len() as int)),
    }
}

/// The analysis of a project by what rustc says of its targets and what its
/// sources say. None where rustc says nothing.
pub open spec fn captured_analysis(
    programs: Seq<ProgramModel>,
    syntax: AnalysisModel,
    known: Seq<(Seq<char>, Seq<char>)>,
) -> Option<AnalysisModel> {
    if all_functions(programs, programs.len() as int).len() == 0 {
        None
    } else {
        Some(deduplicated(merged_analysis(syntax, captured_program(programs), known)))
    }
}

fn join_programs(programs: &Vec<SemanticProgram>) -> (result: Vec<SemanticFunction>)
    ensures
        views(result@) == all_functions(views(programs@), programs@.len() as int),
{
    let mut result: Vec<SemanticFunction> = Vec::new();
    let mut index: usize = 0;
    proof {
        assert(views(result@) =~= Seq::empty());
    }
    while index < programs.len()
        invariant
            index <= programs@.len(),
            views(result@) == all_functions(views(programs@), index as int),
        decreases programs@.len() - index,
    {
        let ghost before = views(result@);
        proof {
            assert(views(programs@)[index as int] == programs@[index as int]@);
        }
        let mut more = copy_list(&programs[index].functions);
        let ghost added = views(more@);
        result.append(&mut more);
        proof {
            assert(views(result@) =~= before + added);
        }
        index += 1;
    }
    result
}

/// Puts together what rustc says of the targets of a project and what its
/// sources say.
pub fn capture_semantic_project(
    programs: &Vec<SemanticProgram>,
    syntax: FileAnalysis,
    file_identities: &Vec<KnownFile>,
) -> (result: Option<FileAnalysis>)
    ensures
        match result {
            Some(analysis) => captured_analysis(
                views(programs@),
                syntax@,
                views(file_identities@),
            ) == Some(analysis@),
            None => captured_analysis(
                views(programs@),
                syntax@,
                views(file_identities@),
            ) is None,
        },
{
    let functions = join_programs(programs);
    proof {
        assert(views(functions@).len() == functions@.len());
        assert(views(programs@).len() == programs@.len());
    }
    if functions.len() == 0 {
        return None;
    }
    let ordered = sort_captured(&functions);
    proof {
        assert(views(ordered@).len() == ordered@.len());
    }
    let mut program = SemanticProgram {
        crate_name: String::new(),
        functions: keep_captured_once(&ordered),
    };
    respecialize_merged_semantic_program(&mut program);
    proof {
        reveal_strlit("");
        assert(program@.crate_name =~= ""@);
    }
    let merged = merge_semantic_program(syntax, program, file_identities);
    Some(deduplicate_analysis(merged))
}

/// Whether two texts of an optional label are equal.
fn same_label(left: &CallLabel, right: &CallLabel) -> (result: bool)
    ensures
        result == (left@ == right@),
{
    same_text(left.default.as_str(), right.default.as_str()) && same_optional(
        &left.typed,
        &right.typed,
    )
}

fn same_syntax(left: &CallSyntax, right: &CallSyntax) -> (result: bool)
    ensures
        result == (left@ == right@),
    decreases left,
{
    match (left, right) {
        (CallSyntax::Path(left), CallSyntax::Path(right)) => same_list(left, right),
        (CallSyntax::SelfMethod(left), CallSyntax::SelfMethod(right)) => same_text(
            left.as_str(),
            right.as_str(),
        ),
        (
            CallSyntax::Method { receiver: left, method: left_method },
            CallSyntax::Method { receiver: right, method: right_method },
        ) => same_text(left.as_str(), right.as_str()) && same_text(
            left_method.as_str(),
            right_method.as_str(),
        ),
        (CallSyntax::Expression(left), CallSyntax::Expression(right)) => same_text(
            left.as_str(),
            right.as_str(),
        ),
        (CallSyntax::CompilerConfirmed(left), CallSyntax::CompilerConfirmed(right)) => same_syntax(
            &**left,
            &**right,
        ),
        _ => false,
    }
}

fn same_candidates(left: &Vec<DispatchCandidate>, right: &Vec<DispatchCandidate>) -> (result: bool)
    ensures
        result == (candidate_models(left@) == candidate_models(right@)),
{
    let ghost first = candidate_models(left@);
    let ghost second = candidate_models(right@);
    proof {
        assert(first.len() == left@.len());
        assert(second.len() == right@.len());
    }
    if left.len() != right.len() {
        return false;
    }
    let mut index: usize = 0;
    while index < left.len()
        invariant
            index <= left@.len(),
            left@.len() == right@.len(),
            first == candidate_models(left@),
            second == candidate_models(right@),
            forall|k: int| 0 <= k < index ==> #[trigger] first[k] == second[k],
        decreases left@.len() - index,
    {
        proof {
            assert(first[index as int] == left@[index as int]@);
            assert(second[index as int] == right@[index as int]@);
        }
        if !left[index].target.same(&right[index].target) || !same_label(
            &left[index].label,
            &right[index].label,
        ) {
            return false;
        }
        index += 1;
    }
    proof {
        assert(first =~= second);
    }
    true
}

fn same_reasons(left: &Vec<UnresolvedReason>, right: &Vec<UnresolvedReason>) -> (result: bool)
    ensures
        result == (left@ == right@),
{
    if left.len() != right.len() {
        return false;
    }
    let mut index: usize = 0;
    while index < left.len()
        invariant
            index <= left@.len(),
            left@.len() == right@.len(),
            forall|k: int| 0 <= k < index ==> #[trigger] left@[k] == right@[k],
        decreases left@.len() - index,
    {
        if left[index] != right[index] {
            return false;
        }
        index += 1;
    }
    proof {
        assert(left@ =~= right@);
    }
    true
}

fn same_target(left: &CallTarget, right: &CallTarget) -> (result: bool)
    ensures
        result == (left@ == right@),
{
    match (left, right) {
        (CallTarget::Unresolved, CallTarget::Unresolved) => true,
        (
            CallTarget::Indirect { signature: left, reason: left_reason },
            CallTarget::Indirect { signature: right, reason: right_reason },
        ) => same_optional(left, right) && *left_reason == *right_reason,
        (CallTarget::Direct(left), CallTarget::Direct(right)) => left.same(right),
        (
            CallTarget::Dynamic {
                dispatch: left,
                candidates: left_candidates,
                resolution: left_resolution,
                evidence: left_evidence,
                unresolved_reasons: left_reasons,
            },
            CallTarget::Dynamic {
                dispatch: right,
                candidates: right_candidates,
                resolution: right_resolution,
                evidence: right_evidence,
                unresolved_reasons: right_reasons,
            },
        ) => left.same(right) && same_candidates(left_candidates, right_candidates)
            && *left_resolution == *right_resolution && *left_evidence == *right_evidence
            && same_reasons(left_reasons, right_reasons),
        _ => false,
    }
}

/// Whether two calls are one: all of them is equal, and they stand at one
/// place.
pub open spec fn same_call(left: SiteModel, right: SiteModel) -> bool {
    left.id == right.id && left.syntax == right.syntax && left.target == right.target && left.label
        == right.label && same_span(left.span, right.span)
}

fn is_same_call(left: &CallSite, right: &CallSite) -> (result: bool)
    ensures
        result == same_call(left@, right@),
{
    same_text(left.id.0.as_str(), right.id.0.as_str()) && left.span.same(&right.span) && same_label(
        &left.label,
        &right.label,
    ) && same_syntax(&left.syntax, &right.syntax) && same_target(&left.target, &right.target)
}

/// Whether a call is among some calls.
pub open spec fn has_call(calls: Seq<SiteModel>, call: SiteModel) -> bool {
    exists|k: int| 0 <= k < calls.len() && same_call(#[trigger] calls[k], call)
}

fn is_among_calls(calls: &Vec<CallSite>, call: &CallSite) -> (result: bool)
    ensures
        result == has_call(views(calls@), call@),
{
    let ghost model = views(calls@);
    let mut index: usize = 0;
    while index < calls.len()
        invariant
            index <= calls@.len(),
            model == views(calls@),
            forall|k: int| 0 <= k < index ==> !same_call(#[trigger] model[k], call@),
        decreases calls@.len() - index,
    {
        proof {
            assert(model[index as int] == calls@[index as int]@);
        }
        if is_same_call(&calls[index], call) {
            return true;
        }
        index += 1;
    }
    false
}

/// Some calls, and those of the first `count` others that are not among them.
pub open spec fn with_calls(calls: Seq<SiteModel>, more: Seq<SiteModel>, count: int) -> Seq<SiteModel>
    decreases count,
{
    if count <= 0 {
        calls
    } else {
        let before = with_calls(calls, more, count - 1);
        if has_call(before, more[count - 1]) {
            before
        } else {
            before.push(more[count - 1])
        }
    }
}

/// Whether a call stands before another: by file, line and column.
pub open spec fn call_earlier(left: SiteModel, right: SiteModel) -> bool {
    path_less(left.span.file, right.span.file) || (same_place(left.span.file, right.span.file) && (
    left.span.start_line < right.span.start_line || (left.span.start_line == right.span.start_line
        && left.span.start_column < right.span.start_column)))
}

fn is_call_earlier(left: &CallSite, right: &CallSite) -> (result: bool)
    ensures
        result == call_earlier(left@, right@),
{
    left.span.file.before(&right.span.file) || (left.span.file.same(&right.span.file) && (
    left.span.start_line < right.span.start_line || (left.span.start_line == right.span.start_line
        && left.span.start_column < right.span.start_column)))
}

/// How many calls at the front, from `index` on, do not stand behind a call.
pub open spec fn call_position(calls: Seq<SiteModel>, call: SiteModel, index: nat) -> nat
    decreases calls.len() - index,
{
    if index < calls.len() && !call_earlier(call, calls[index as int]) {
        call_position(calls, call, index + 1)
    } else {
        index
    }
}

/// The first `count` calls, in the order in which they stand.
pub open spec fn calls_in_order(calls: Seq<SiteModel>, count: int) -> Seq<SiteModel>
    decreases count,
{
    if count <= 0 {
        Seq::empty()
    } else {
        let before = calls_in_order(calls, count - 1);
        before.insert(call_position(before, calls[count - 1], 0) as int, calls[count - 1])
    }
}

fn sort_calls(calls: &Vec<CallSite>) -> (result: Vec<CallSite>)
    ensures
        views(result@) == calls_in_order(views(calls@), calls@.len() as int),
{
    let mut result: Vec<CallSite> = Vec::new();
    let mut index: usize = 0;
    proof {
        assert(views(result@) =~= Seq::empty());
    }
    while index < calls.len()
        invariant
            index <= calls@.len(),
            views(result@) == calls_in_order(views(calls@), index as int),
        decreases calls@.len() - index,
    {
        let call = &calls[index];
        let ghost before = views(result@);
        proof {
            assert(views(calls@)[index as int] == call@);
        }
        let mut place: usize = 0;
        while place < result.len() && !is_call_earlier(call, &result[place])
            invariant
                place <= result@.len(),
                before == views(result@),
                call_position(before, call@, place as nat) == call_position(before, call@, 0),
            decreases result@.len() - place,
        {
            proof {
                assert(before[place as int] == result@[place as int]@);
            }
            place += 1;
        }
        proof {
            if place < result@.len() {
                assert(before[place as int] == result@[place as int]@);
            }
        }
        result.insert(place, call.clone());
        proof {
            assert(views(result@) =~= before.insert(place as int, call@));
        }
        index += 1;
    }
    result
}

/// A function with the calls of another that it does not have.
pub open spec fn with_calls_of(function: FunctionModel, other: FunctionModel) -> FunctionModel {
    let calls = with_calls(function.calls, other.calls, other.calls.len() as int);
    FunctionModel { calls: calls_in_order(calls, calls.len() as int), ..function }
}

fn add_calls_of(function: &FunctionInfo, other: &FunctionInfo) -> (result: FunctionInfo)
    ensures
        result@ == with_calls_of(function@, other@),
{
    let mut calls = copy_list(&function.calls);
    let mut index: usize = 0;
    proof {
        assert(views(calls@) =~= function@.calls);
        assert(other@.calls.len() == other.calls@.len());
    }
    while index < other.calls.len()
        invariant
            index <= other.calls@.len(),
            views(calls@) == with_calls(function@.calls, other@.calls, index as int),
        decreases other.calls@.len() - index,
    {
        let call = &other.calls[index];
        let ghost before = views(calls@);
        proof {
            assert(other@.calls[index as int] == call@);
        }
        if !is_among_calls(&calls, call) {
            calls.push(call.clone());
            proof {
                assert(views(calls@) =~= before.push(call@));
            }
        }
        index += 1;
    }
    proof {
        assert(views(calls@).len() == calls@.len());
    }
    let result = FunctionInfo {
        id: function.id.clone(),
        label: function.label.clone(),
        public: function.public,
        calls: sort_calls(&calls),
        span: function.span.clone(),
    };
    proof {
        assert(site_models(result.calls@) =~= views(result.calls@));
    }
    result
}

/// How many functions at the front, from `index` on, have identities before
/// `id`.
pub open spec fn id_position(functions: Seq<FunctionModel>, id: SymbolModel, index: nat) -> nat
    decreases functions.len() - index,
{
    if index < functions.len() && symbol_less(functions[index as int].id, id) {
        id_position(functions, id, index + 1)
    } else {
        index
    }
}

/// Functions in the order of their identities with one more: its calls go to
/// the function that has its identity, where there is one.
pub open spec fn with_function(functions: Seq<FunctionModel>, function: FunctionModel) -> Seq<
    FunctionModel,
> {
    let place = id_position(functions, function.id, 0) as int;
    if place < functions.len() && functions[place].id == function.id {
        functions.update(place, with_calls_of(functions[place], function))
    } else if place <= functions.len() {
        functions.insert(place, function)
    } else {
        functions
    }
}

fn add_function(functions: &mut Vec<FunctionInfo>, function: &FunctionInfo)
    ensures
        views(final(functions)@) == with_function(views(old(functions)@), function@),
{
    let ghost before = views(functions@);
    let mut place: usize = 0;
    while place < functions.len() && functions[place].id.before(&function.id)
        invariant
            place <= functions@.len(),
            before == views(functions@),
            id_position(before, function@.id, place as nat) == id_position(
                before,
                function@.id,
                0,
            ),
        decreases functions@.len() - place,
    {
        proof {
            assert(before[place as int] == functions@[place as int]@);
        }
        place += 1;
    }
    proof {
        if place < functions@.len() {
            assert(before[place as int] == functions@[place as int]@);
        }
    }
    if place < functions.len() && functions[place].id.same(&function.id) {
        let merged = add_calls_of(&functions[place], function);
        let ghost model = merged@;
        functions.set(place, merged);
        proof {
            assert(views(functions@) =~= before.update(place as int, model));
        }
    } else {
        functions.insert(place, function.clone());
        proof {
            assert(views(functions@) =~= before.insert(place as int, function@));
        }
    }
}

/// The first `count` functions, each identity once and in order.
pub open spec fn functions_once(functions: Seq<FunctionModel>, count: int) -> Seq<FunctionModel>
    decreases count,
{
    if count <= 0 {
        Seq::empty()
    } else {
        with_function(functions_once(functions, count - 1), functions[count - 1])
    }
}

/// An analysis in which each function is there once, with the calls of all of
/// its copies.
pub open spec fn deduplicated(analysis: AnalysisModel) -> AnalysisModel {
    AnalysisModel {
        functions: functions_once(analysis.functions, analysis.functions.len() as int),
        ..analysis
    }
}

/// Keeps each function once, with the calls of all of its copies.
pub fn deduplicate_analysis(analysis: FileAnalysis) -> (result: FileAnalysis)
    ensures
        result@ == deduplicated(analysis@),
{
    let ghost start = analysis@;
    let mut functions: Vec<FunctionInfo> = Vec::new();
    let mut index: usize = 0;
    proof {
        assert(views(functions@) =~= Seq::empty());
        assert(start.functions.len() == analysis.functions@.len());
    }
    while index < analysis.functions.len()
        invariant
            index <= analysis.functions@.len(),
            start == analysis@,
            views(functions@) == functions_once(start.functions, index as int),
        decreases analysis.functions@.len() - index,
    {
        proof {
            assert(start.functions[index as int] == analysis.functions@[index as int]@);
        }
        add_function(&mut functions, &analysis.functions[index]);
        index += 1;
    }
    let result = FileAnalysis {
        functions,
        facts: analysis.facts,
        source_files: analysis.source_files,
        roots: analysis.roots,
    };
    proof {
        assert(result@.functions =~= views(result.functions@));
    }
    result
}

/// Whether functions stand in the order of their identities, each once.
pub open spec fn ids_in_order(functions: Seq<FunctionModel>) -> bool {
    forall|i: int, j: int|
        0 <= i < j < functions.len() ==> symbol_less(
            (#[trigger] functions[i]).id,
            (#[trigger] functions[j]).id,
        )
}

proof fn id_position_is_first(functions: Seq<FunctionModel>, id: SymbolModel, index: nat)
    requires
        index <= functions.len(),
        forall|k: int| 0 <= k < index ==> symbol_less((#[trigger] functions[k]).id, id),
    ensures
        index <= id_position(functions, id, index) <= functions.len(),
        forall|k: int|
            0 <= k < id_position(functions, id, index) ==> symbol_less(
                (#[trigger] functions[k]).id,
                id,
            ),
        id_position(functions, id, index) < functions.len() ==> !symbol_less(
            functions[id_position(functions, id, index) as int].id,
            id,
        ),
    decreases functions.len() - index,
{
    if index < functions.len() && symbol_less(functions[index as int].id, id) {
        id_position_is_first(functions, id, index + 1);
    }
}

#[verifier::rlimit(30)]
proof fn added_functions_keep_order(functions: Seq<FunctionModel>, function: FunctionModel)
    requires
        ids_in_order(functions),
    ensures
        ids_in_order(with_function(functions, function)),
        forall|id: SymbolModel|
            has_id(with_function(functions, function), id) == (has_id(functions, id) || id
                == function.id),
{
    id_position_is_first(functions, function.id, 0);
    let place = id_position(functions, function.id, 0) as int;
    let grown = with_function(functions, function);
    if place < functions.len() && functions[place].id == function.id {
        assert forall|i: int, j: int| 0 <= i < j < grown.len() implies symbol_less(
            (#[trigger] grown[i]).id,
            (#[trigger] grown[j]).id,
        ) by {
            assert(grown[i].id == functions[i].id);
            assert(grown[j].id == functions[j].id);
        }
        assert forall|id: SymbolModel| has_id(grown, id) == (has_id(functions, id) || id
            == function.id) by {
            if has_id(grown, id) {
                let k = choose|k: int| 0 <= k < grown.len() && (#[trigger] grown[k]).id == id;
                assert(functions[k].id == id);
            }
            if has_id(functions, id) {
                let k = choose|k: int| 0 <= k < functions.len() && (#[trigger] functions[k]).id == id;
                assert(grown[k].id == id);
            }
            if id == function.id {
                assert(grown[place].id == id);
            }
        }
    } else {
        if place < functions.len() {
            crate::model::symbol_order_laws(functions[place].id, function.id, function.id);
        }
        assert forall|i: int, j: int| 0 <= i < j < grown.len() implies symbol_less(
            (#[trigger] grown[i]).id,
            (#[trigger] grown[j]).id,
        ) by {
            let left = if i < place {
                i
            } else {
                i - 1
            };
            let right = if j < place {
                j
            } else {
                j - 1
            };
            if i == place {
                assert(grown[j] == functions[right]);
                if right > place {
                    assert(symbol_less(functions[place].id, functions[right].id));
                    crate::model::symbol_order_laws(
                        function.id,
                        functions[place].id,
                        functions[right].id,
                    );
                }
            } else if j == place {
                assert(grown[i] == functions[left]);
            } else {
                assert(grown[i] == functions[left]);
                assert(grown[j] == functions[right]);
            }
        }
        assert forall|id: SymbolModel| has_id(grown, id) == (has_id(functions, id) || id
            == function.id) by {
            if has_id(grown, id) {
                let k = choose|k: int| 0 <= k < grown.len() && (#[trigger] grown[k]).id == id;
                if k < place {
                    assert(functions[k].id == id);
                } else if k > place {
                    assert(functions[k - 1].id == id);
                }
            }
            if has_id(functions, id) {
                let k = choose|k: int| 0 <= k < functions.len() && (#[trigger] functions[k]).id == id;
                if k < place {
                    assert(grown[k].id == id);
                } else {
                    assert(grown[k + 1].id == id);
                }
            }
            if id == function.id {
                assert(grown[place].id == id);
            }
        }
    }
}

/// Whether a function has an identity.
pub open spec fn has_id(functions: Seq<FunctionModel>, id: SymbolModel) -> bool {
    exists|k: int| 0 <= k < functions.len() && (#[trigger] functions[k]).id == id
}

/// Deduplication leaves each identity once, in order, and loses none.
pub proof fn functions_are_there_once(functions: Seq<FunctionModel>, count: int)
    requires
        0 <= count <= functions.len(),
    ensures
        ids_in_order(functions_once(functions, count)),
        forall|id: SymbolModel|
            has_id(functions_once(functions, count), id) == has_id(functions.take(count), id),
    decreases count,
{
    if count > 0 {
        functions_are_there_once(functions, count - 1);
        let before = functions_once(functions, count - 1);
        added_functions_keep_order(before, functions[count - 1]);
        let shorter = functions.take(count - 1);
        let longer = functions.take(count);
        assert forall|id: SymbolModel| has_id(functions_once(functions, count), id) == has_id(
            longer,
            id,
        ) by {
            assert(has_id(before, id) == has_id(shorter, id));
            if has_id(shorter, id) {
                let k = choose|k: int| 0 <= k < shorter.len() && (#[trigger] shorter[k]).id == id;
                assert(longer[k].id == id);
            }
            if functions[count - 1].id == id {
                assert(longer[count - 1].id == id);
            }
            if has_id(longer, id) {
                let k = choose|k: int| 0 <= k < longer.len() && (#[trigger] longer[k]).id == id;
                if k < count - 1 {
                    assert(shorter[k].id == id);
                }
            }
        }
    }
}

} // verus!
