//! The call graph of a whole program.
use crate::lists::{copy_list, views};
use crate::model::{
    fact_models, function_models, path_models, symbol_less, symbol_models, symbol_order_laws,
    symbol_text, AnalysisModel, CallSite, CallSyntax, CallTarget, FactModel, FileAnalysis,
    FunctionInfo, FunctionModel, LanguageFact, SiteModel, SymbolId, SymbolModel, SyntaxModel,
    TargetModel,
};
use crate::names::{base_container, container_base, path_names, path_suffix_matches};
use crate::paths::SourcePath;
use crate::sets::{
    added_path_keeps_order, insert_path, insert_symbol, paths_in_order, symbols_in_order,
    with_paths,
};
use crate::text::{chars_of, concat_texts, is_upper, same_list, same_optional, same_text, texts};
use vstd::prelude::*;

verus! {

/// The call graph of a whole program.
#[derive(Debug)]
pub struct ProgramGraph {
    /// In the order of their symbols, each symbol once.
    pub(crate) functions: Vec<FunctionInfo>,
    pub(crate) facts: Vec<LanguageFact>,
    /// In order, each place once.
    pub(crate) source_files: Vec<SourcePath>,
    /// In order, each symbol once.
    pub(crate) declared_roots: Vec<SymbolId>,
}

#[verifier::ext_equal]
pub struct GraphModel {
    pub functions: Seq<FunctionModel>,
    pub facts: Seq<FactModel>,
    pub source_files: Seq<Seq<char>>,
    pub declared_roots: Seq<SymbolModel>,
}

impl View for ProgramGraph {
    type V = GraphModel;

    open(crate) spec fn view(&self) -> GraphModel {
        GraphModel {
            functions: function_models(self.functions@),
            facts: fact_models(self.facts@),
            source_files: path_models(self.source_files@),
            declared_roots: symbol_models(self.declared_roots@),
        }
    }
}

/// The graph of no program at all.
pub open spec fn no_graph() -> GraphModel {
    GraphModel {
        functions: Seq::empty(),
        facts: Seq::empty(),
        source_files: Seq::empty(),
        declared_roots: Seq::empty(),
    }
}

impl Default for ProgramGraph {
    fn default() -> (result: Self)
        ensures
            result@ == no_graph(),
    {
        let result = ProgramGraph {
            functions: Vec::new(),
            facts: Vec::new(),
            source_files: Vec::new(),
            declared_roots: Vec::new(),
        };
        proof {
            assert(result@ =~= no_graph());
        }
        result
    }
}

impl Clone for ProgramGraph {
    fn clone(&self) -> (result: Self)
        ensures
            result@ == self@,
    {
        proof {
            use_type_invariant(self);
        }
        let functions = copy_list(&self.functions);
        let facts = copy_list(&self.facts);
        let source_files = copy_list(&self.source_files);
        let declared_roots = copy_list(&self.declared_roots);
        proof {
            assert(function_models(functions@) =~= views(functions@));
            assert(function_models(self.functions@) =~= views(self.functions@));
            assert(fact_models(facts@) =~= views(facts@));
            assert(fact_models(self.facts@) =~= views(self.facts@));
            assert(path_models(source_files@) =~= views(source_files@));
            assert(path_models(self.source_files@) =~= views(self.source_files@));
            assert(symbol_models(declared_roots@) =~= views(declared_roots@));
            assert(symbol_models(self.declared_roots@) =~= views(self.declared_roots@));
        }
        ProgramGraph { functions, facts, source_files, declared_roots }
    }
}

/// A graph that is being put together.
struct GraphDraft {
    functions: Vec<FunctionInfo>,
    facts: Vec<LanguageFact>,
    source_files: Vec<SourcePath>,
    declared_roots: Vec<SymbolId>,
}

impl View for GraphDraft {
    type V = GraphModel;

    closed spec fn view(&self) -> GraphModel {
        GraphModel {
            functions: function_models(self.functions@),
            facts: fact_models(self.facts@),
            source_files: path_models(self.source_files@),
            declared_roots: symbol_models(self.declared_roots@),
        }
    }
}

/// The symbols of a list of functions.
pub open spec fn function_ids(functions: Seq<FunctionModel>) -> Seq<SymbolModel> {
    functions.map_values(|function: FunctionModel| function.id)
}

/// Whether a graph keeps its functions, files and roots in order.
pub open spec fn in_order(graph: GraphModel) -> bool {
    &&& symbols_in_order(function_ids(graph.functions))
    &&& symbols_in_order(graph.declared_roots)
    &&& paths_in_order(graph.source_files)
}

/// Where a symbol's function stands in a list, from `index` on.
pub open spec fn function_from(
    functions: Seq<FunctionModel>,
    id: SymbolModel,
    index: nat,
) -> Option<nat>
    decreases functions.len() - index,
{
    if index >= functions.len() {
        None
    } else if functions[index as int].id == id {
        Some(index)
    } else {
        function_from(functions, id, index + 1)
    }
}

/// Where a symbol's function stands in a graph.
pub open spec fn function_at(graph: GraphModel, id: SymbolModel) -> Option<nat> {
    function_from(graph.functions, id, 0)
}

/// Whether a graph has a function for a symbol.
pub open spec fn has_function(graph: GraphModel, id: SymbolModel) -> bool {
    function_at(graph, id) is Some
}

/// What is found is a function of that symbol, and where nothing is found
/// there is none.
pub proof fn function_from_finds(functions: Seq<FunctionModel>, id: SymbolModel, index: nat)
    ensures
        match function_from(functions, id, index) {
            Some(found) => index <= found < functions.len() && functions[found as int].id == id,
            None => forall|k: int|
                index <= k < functions.len() ==> (#[trigger] functions[k]).id != id,
        },
    decreases functions.len() - index,
{
    if index < functions.len() && functions[index as int].id != id {
        function_from_finds(functions, id, index + 1);
    }
}

/// The name that a call uses, where it uses one.
pub open spec fn called_name(syntax: SyntaxModel) -> Option<Seq<char>> {
    match syntax {
        SyntaxModel::Path(parts) => if parts.len() > 0 {
            Some(parts.last())
        } else {
            None
        },
        SyntaxModel::SelfMethod(method) => Some(method),
        SyntaxModel::Method { receiver, method } => Some(method),
        _ => None,
    }
}

/// Whether a call of `caller` by name can mean `candidate`: the names and the
/// languages agree.
pub open spec fn name_fits(
    caller: SymbolModel,
    syntax: SyntaxModel,
    candidate: SymbolModel,
) -> bool {
    called_name(syntax) == Some(candidate.name) && candidate.language == caller.language
}

/// Whether a call of `caller` means `candidate` before all others of its name:
/// a method of the own type, a function of the own module, what a longer path
/// spells out, or a method of the type that the receiver names.
pub open spec fn place_fits(
    caller: SymbolModel,
    syntax: SyntaxModel,
    candidate: SymbolModel,
) -> bool {
    name_fits(caller, syntax, candidate) && match syntax {
        SyntaxModel::SelfMethod(_) => caller.container is Some && candidate.module == caller.module
            && candidate.container == caller.container,
        SyntaxModel::Path(parts) => if parts[0] == "Self"@ {
            caller.container is Some && candidate.module == caller.module && candidate.container
                == caller.container
        } else if parts.len() == 1 {
            candidate.module == caller.module && candidate.container is None
        } else {
            path_names(candidate, parts)
        },
        SyntaxModel::Method { receiver, .. } => receiver.len() > 0 && is_upper(receiver[0])
            && match candidate.container {
            Some(container) => container_base(container) == receiver,
            None => false,
        },
        _ => false,
    }
}

/// Whether a candidate fits by place, or by name only.
pub open spec fn fits(
    caller: SymbolModel,
    syntax: SyntaxModel,
    by_place: bool,
    candidate: SymbolModel,
) -> bool {
    if by_place {
        place_fits(caller, syntax, candidate)
    } else {
        name_fits(caller, syntax, candidate)
    }
}

/// How many of the first `count` functions fit a call.
pub open spec fn fitting_count(
    functions: Seq<FunctionModel>,
    caller: SymbolModel,
    syntax: SyntaxModel,
    by_place: bool,
    count: nat,
) -> nat
    decreases count,
{
    if count == 0 {
        0
    } else {
        let before = fitting_count(functions, caller, syntax, by_place, (count - 1) as nat);
        if fits(caller, syntax, by_place, functions[count - 1].id) {
            before + 1
        } else {
            before
        }
    }
}

/// The last of the first `count` functions that fits a call.
pub open spec fn last_fitting(
    functions: Seq<FunctionModel>,
    caller: SymbolModel,
    syntax: SyntaxModel,
    by_place: bool,
    count: nat,
) -> Option<SymbolModel>
    decreases count,
{
    if count == 0 {
        None
    } else if fits(caller, syntax, by_place, functions[count - 1].id) {
        Some(functions[count - 1].id)
    } else {
        last_fitting(functions, caller, syntax, by_place, (count - 1) as nat)
    }
}

/// The one function that fits a call, where there is just one.
pub open spec fn only_fitting(
    graph: GraphModel,
    caller: SymbolModel,
    syntax: SyntaxModel,
    by_place: bool,
) -> Option<SymbolModel> {
    let all = graph.functions.len();
    if fitting_count(graph.functions, caller, syntax, by_place, all) == 1 {
        last_fitting(graph.functions, caller, syntax, by_place, all)
    } else {
        None
    }
}

/// What a call means whose target only its syntax tells: the one function that
/// fits by place; where none does, the one function of that name.
pub open spec fn resolved_call(
    graph: GraphModel,
    caller: SymbolModel,
    syntax: SyntaxModel,
) -> Option<SymbolModel> {
    if fitting_count(graph.functions, caller, syntax, true, graph.functions.len()) > 0 {
        only_fitting(graph, caller, syntax, true)
    } else {
        only_fitting(graph, caller, syntax, false)
    }
}

/// The functions that a call may reach.
pub open spec fn targets(
    graph: GraphModel,
    caller: SymbolModel,
    call: SiteModel,
) -> Seq<SymbolModel> {
    match call.target {
        TargetModel::Direct(target) => seq![target],
        TargetModel::Dynamic { candidates, .. } => candidates.map_values(
            |candidate: crate::model::CandidateModel| candidate.target,
        ),
        TargetModel::Indirect { .. } => Seq::empty(),
        TargetModel::Unresolved => match resolved_call(graph, caller, call.syntax) {
            Some(target) => seq![target],
            None => Seq::empty(),
        },
    }
}

/// The model of an optional symbol.
pub open spec fn optional_symbol(symbol: Option<SymbolId>) -> Option<SymbolModel> {
    match symbol {
        Some(symbol) => Some(symbol@),
        None => None,
    }
}

fn is_name_fit(caller: &SymbolId, call: &CallSyntax, candidate: &SymbolId) -> (result: bool)
    ensures
        result == name_fits(caller@, call@, candidate@),
{
    let name = match call {
        CallSyntax::Path(parts) => {
            if parts.len() == 0 {
                return false;
            }
            proof {
                assert(texts(parts@).last() == parts@.last()@);
            }
            parts[parts.len() - 1].as_str()
        },
        CallSyntax::SelfMethod(method) => method.as_str(),
        CallSyntax::Method { receiver, method } => method.as_str(),
        _ => {
            return false;
        },
    };
    same_text(name, candidate.name.as_str()) && same_text(
        candidate.language.0.as_str(),
        caller.language.0.as_str(),
    )
}

fn is_place_fit(caller: &SymbolId, call: &CallSyntax, candidate: &SymbolId) -> (result: bool)
    ensures
        result == place_fits(caller@, call@, candidate@),
{
    if !is_name_fit(caller, call, candidate) {
        return false;
    }
    match call {
        CallSyntax::SelfMethod(_) => caller.container.is_some() && same_list(
            &candidate.module,
            &caller.module,
        ) && same_optional(&candidate.container, &caller.container),
        CallSyntax::Path(parts) => {
            proof {
                assert(texts(parts@).len() == parts@.len());
                assert(texts(parts@)[0] == parts@[0]@);
            }
            if same_text(parts[0].as_str(), "Self") {
                caller.container.is_some() && same_list(&candidate.module, &caller.module)
                    && same_optional(&candidate.container, &caller.container)
            } else if parts.len() == 1 {
                same_list(&candidate.module, &caller.module) && candidate.container.is_none()
            } else {
                path_suffix_matches(candidate, parts)
            }
        },
        CallSyntax::Method { receiver, method } => {
            let characters = chars_of(receiver.as_str());
            if characters.len() == 0 {
                return false;
            }
            let first: char = characters[0];
            first.is_uppercase() && match &candidate.container {
                Some(container) => same_text(
                    base_container(container.as_str()).as_str(),
                    receiver.as_str(),
                ),
                None => false,
            }
        },
        _ => false,
    }
}

/// The place of a symbol's function in a list.
fn find_function(functions: &Vec<FunctionInfo>, symbol: &SymbolId) -> (result: Option<usize>)
    ensures
        match result {
            Some(index) => function_from(function_models(functions@), symbol@, 0) == Some(
                index as nat,
            ) && index < functions@.len() && functions@[index as int].id@ == symbol@,
            None => function_from(function_models(functions@), symbol@, 0) is None,
        },
{
    let ghost models = function_models(functions@);
    let mut index: usize = 0;
    while index < functions.len()
        invariant
            index <= functions@.len(),
            models == function_models(functions@),
            function_from(models, symbol@, index as nat) == function_from(models, symbol@, 0),
        decreases functions@.len() - index,
    {
        assert(models[index as int] == functions@[index as int]@);
        if functions[index].id.same(symbol) {
            return Some(index);
        }
        index += 1;
    }
    None
}

impl ProgramGraph {
    /// Whether the graph keeps its functions, files and roots in order.
    #[verifier::type_invariant]
    pub(crate) open(crate) spec fn well_formed(&self) -> bool {
        in_order(self@)
    }

    /// The place of a symbol's function.
    pub fn find(&self, symbol: &SymbolId) -> (result: Option<usize>)
        ensures
            match result {
                Some(index) => function_at(self@, symbol@) == Some(index as nat) && index
                    < self@.functions.len() && self@.functions[index as int].id == symbol@,
                None => function_at(self@, symbol@) is None,
            },
    {
        let result = find_function(&self.functions, symbol);
        proof {
            if let Some(index) = result {
                assert(self@.functions[index as int] == self.functions@[index as int]@);
            }
        }
        result
    }

    /// The one function that fits a call, and whether any fits at all.
    fn only_fit(&self, caller: &SymbolId, call: &CallSyntax, by_place: bool) -> (result: (
        Option<SymbolId>,
        bool,
    ))
        ensures
            optional_symbol(result.0) == only_fitting(self@, caller@, call@, by_place),
            result.1 == (fitting_count(
                self@.functions,
                caller@,
                call@,
                by_place,
                self@.functions.len(),
            ) > 0),
    {
        let mut count: usize = 0;
        let mut last: Option<usize> = None;
        let mut index: usize = 0;
        while index < self.functions.len()
            invariant
                count <= index <= self.functions@.len(),
                count == fitting_count(
                    self@.functions,
                    caller@,
                    call@,
                    by_place,
                    index as nat,
                ),
                match last {
                    Some(found) => found < index && last_fitting(
                        self@.functions,
                        caller@,
                        call@,
                        by_place,
                        index as nat,
                    ) == Some(self.functions@[found as int].id@),
                    None => last_fitting(
                        self@.functions,
                        caller@,
                        call@,
                        by_place,
                        index as nat,
                    ) is None,
                },
            decreases self.functions@.len() - index,
        {
            assert(self@.functions[index as int] == self.functions@[index as int]@);
            let candidate = &self.functions[index].id;
            let fit = if by_place {
                is_place_fit(caller, call, candidate)
            } else {
                is_name_fit(caller, call, candidate)
            };
            if fit {
                count += 1;
                last = Some(index);
            }
            index += 1;
        }
        if count == 1 {
            match last {
                Some(found) => (Some(self.functions[found].id.clone()), true),
                None => (None, true),
            }
        } else {
            (None, count > 0)
        }
    }

    /// What a call means whose target only its syntax tells.
    pub fn resolve_call(&self, caller: &SymbolId, call: &CallSyntax) -> (result: Option<SymbolId>)
        ensures
            optional_symbol(result) == resolved_call(self@, caller@, call@),
    {
        let (preferred, any) = self.only_fit(caller, call, true);
        if any {
            return preferred;
        }
        let (fallback, _) = self.only_fit(caller, call, false);
        fallback
    }

    /// The functions that a call may reach.
    pub fn call_targets(&self, caller: &SymbolId, call: &CallSite) -> (result: Vec<SymbolId>)
        ensures
            symbol_models(result@) == targets(self@, caller@, call@),
    {
        let mut result: Vec<SymbolId> = Vec::new();
        match &call.target {
            CallTarget::Direct(target) => {
                result.push(target.clone());
            },
            CallTarget::Dynamic { candidates, .. } => {
                let mut index: usize = 0;
                while index < candidates.len()
                    invariant
                        index <= candidates@.len(),
                        result@.len() == index,
                        forall|k: int|
                            0 <= k < index ==> (#[trigger] result@[k])@ == candidates@[k].target@,
                    decreases candidates@.len() - index,
                {
                    result.push(candidates[index].target.clone());
                    index += 1;
                }
            },
            CallTarget::Indirect { .. } => {},
            CallTarget::Unresolved => {
                if let Some(target) = self.resolve_call(caller, &call.syntax) {
                    result.push(target);
                }
            },
        }
        proof {
            assert(symbol_models(result@) =~= targets(self@, caller@, call@));
        }
        result
    }
}

/// The functions of the first `count` files, one file behind the other.
pub open spec fn all_functions(files: Seq<AnalysisModel>, count: nat) -> Seq<FunctionModel>
    decreases count,
{
    if count == 0 {
        Seq::empty()
    } else {
        all_functions(files, (count - 1) as nat) + files[count - 1].functions
    }
}

/// The facts of the first `count` files, one file behind the other.
pub open spec fn all_facts(files: Seq<AnalysisModel>, count: nat) -> Seq<FactModel>
    decreases count,
{
    if count == 0 {
        Seq::empty()
    } else {
        all_facts(files, (count - 1) as nat) + files[count - 1].facts
    }
}

/// The declared roots of the first `count` files.
pub open spec fn all_roots(files: Seq<AnalysisModel>, count: nat) -> Set<SymbolModel>
    decreases count,
{
    if count == 0 {
        Set::empty()
    } else {
        all_roots(files, (count - 1) as nat).union(files[count - 1].roots.to_set())
    }
}

/// The files in which functions stand.
pub open spec fn function_files(functions: Seq<FunctionModel>) -> Seq<Seq<char>> {
    functions.map_values(|function: FunctionModel| function.span.file)
}

/// The files that the first `count` analyses read or have functions in.
pub open spec fn all_files(files: Seq<AnalysisModel>, count: nat) -> Seq<Seq<char>>
    decreases count,
{
    if count == 0 {
        Seq::empty()
    } else {
        let file = files[count - 1];
        let listed = with_paths(
            all_files(files, (count - 1) as nat),
            file.source_files,
            file.source_files.len(),
        );
        with_paths(listed, function_files(file.functions), file.functions.len())
    }
}

/// Whether the function at `index` has the symbol of one before it.
pub open spec fn repeats(functions: Seq<FunctionModel>, index: int) -> bool {
    exists|earlier: int|
        0 <= earlier < index && (#[trigger] functions[earlier]).id == functions[index].id
}

/// The first place at or after `index` where a symbol comes up again.
pub open spec fn first_repeat(functions: Seq<FunctionModel>, index: nat) -> Option<nat>
    decreases functions.len() - index,
{
    if index >= functions.len() {
        None
    } else if repeats(functions, index as int) {
        Some(index)
    } else {
        first_repeat(functions, index + 1)
    }
}

proof fn no_repeat_before(functions: Seq<FunctionModel>, index: nat)
    requires
        index <= functions.len(),
        forall|k: int| 0 <= k < index ==> !#[trigger] repeats(functions, k),
    ensures
        first_repeat(functions, 0) == first_repeat(functions, index),
    decreases index,
{
    if index > 0 {
        no_repeat_before(functions, (index - 1) as nat);
        assert(!repeats(functions, index - 1));
    }
}

proof fn functions_are_prefixes(files: Seq<AnalysisModel>, left: nat, right: nat)
    requires
        left <= right <= files.len(),
    ensures
        all_functions(files, left).len() <= all_functions(files, right).len(),
        all_functions(files, right).take(all_functions(files, left).len() as int) == all_functions(
            files,
            left,
        ),
    decreases right,
{
    let short = all_functions(files, left);
    let long = all_functions(files, right);
    if left < right {
        functions_are_prefixes(files, left, (right - 1) as nat);
        assert(long.take(short.len() as int) =~= all_functions(files, (right - 1) as nat).take(
            short.len() as int,
        ));
    } else {
        assert(long.take(long.len() as int) =~= long);
    }
}

/// What the graph of some analyses holds: all their functions, facts, files
/// and roots.
pub open spec fn holds_files(graph: GraphModel, files: Seq<AnalysisModel>) -> bool {
    &&& in_order(graph)
    &&& graph.functions.to_set() == all_functions(files, files.len()).to_set()
    &&& graph.facts == all_facts(files, files.len())
    &&& graph.source_files == all_files(files, files.len())
    &&& graph.declared_roots.to_set() == all_roots(files, files.len())
}

/// The models of a list of analyses.
pub open spec fn analysis_models(files: Seq<FileAnalysis>) -> Seq<AnalysisModel> {
    files.map_values(|file: FileAnalysis| file@)
}

impl GraphDraft {
    fn add_paths(&mut self, paths: &Vec<SourcePath>)
        requires
            paths_in_order(old(self)@.source_files),
        ensures
            final(self)@ == (GraphModel {
                source_files: with_paths(
                    old(self)@.source_files,
                    path_models(paths@),
                    paths@.len(),
                ),
                ..old(self)@
            }),
            paths_in_order(final(self)@.source_files),
    {
        let mut index: usize = 0;
        let ghost added = path_models(paths@);
        while index < paths.len()
            invariant
                index <= paths@.len(),
                added == path_models(paths@),
                self.functions == old(self).functions,
                self.facts == old(self).facts,
                self.declared_roots == old(self).declared_roots,
                paths_in_order(self@.source_files),
                self@.source_files == with_paths(old(self)@.source_files, added, index as nat),
            decreases paths@.len() - index,
        {
            proof {
                added_path_keeps_order(self@.source_files, added[index as int]);
            }
            insert_path(&mut self.source_files, paths[index].clone());
            index += 1;
        }
    }

    fn add_roots(&mut self, roots: &Vec<SymbolId>)
        requires
            symbols_in_order(old(self)@.declared_roots),
        ensures
            final(self)@.functions == old(self)@.functions,
            final(self)@.facts == old(self)@.facts,
            final(self)@.source_files == old(self)@.source_files,
            symbols_in_order(final(self)@.declared_roots),
            final(self)@.declared_roots.to_set() == old(self)@.declared_roots.to_set().union(
                symbol_models(roots@).to_set(),
            ),
    {
        let mut index: usize = 0;
        let ghost added = symbol_models(roots@);
        let ghost before = self@.declared_roots.to_set();
        proof {
            assert(before.union(added.take(0).to_set()) =~= before);
        }
        while index < roots.len()
            invariant
                index <= roots@.len(),
                added == symbol_models(roots@),
                self.functions == old(self).functions,
                self.facts == old(self).facts,
                self.source_files == old(self).source_files,
                symbols_in_order(self@.declared_roots),
                self@.declared_roots.to_set() == before.union(added.take(index as int).to_set()),
            decreases roots@.len() - index,
        {
            insert_symbol(&mut self.declared_roots, roots[index].clone());
            proof {
                let taken = added.take(index as int);
                let next = added.take(index + 1);
                assert(next =~= taken.insert(index as int, added[index as int]));
                crate::sets::insertion_adds_item(taken, index as int, added[index as int]);
                assert(before.union(taken.to_set()).insert(added[index as int]) =~= before.union(
                    next.to_set(),
                ));
            }
            index += 1;
        }
        proof {
            assert(added.take(roots@.len() as int) =~= added);
        }
    }

    /// Puts a new function in its place.
    fn add_function(&mut self, function: FunctionInfo)
        requires
            in_order(old(self)@),
            !has_function(old(self)@, function.id@),
        ensures
            in_order(final(self)@),
            final(self)@.functions.to_set() == old(self)@.functions.to_set().insert(function@),
            final(self)@.facts == old(self)@.facts,
            final(self)@.source_files == old(self)@.source_files,
            final(self)@.declared_roots == old(self)@.declared_roots,
    {
        let ghost before = self@.functions;
        let ghost ids = function_ids(before);
        let mut index: usize = 0;
        while index < self.functions.len() && self.functions[index].id.before(&function.id)
            invariant
                index <= self.functions@.len(),
                *self == *old(self),
                before == self@.functions,
                ids == function_ids(before),
                forall|k: int| 0 <= k < index ==> symbol_less(#[trigger] ids[k], function.id@),
            decreases self.functions@.len() - index,
        {
            assert(ids[index as int] == self.functions@[index as int].id@);
            index += 1;
        }
        proof {
            function_from_finds(before, function.id@, 0);
            if index < self.functions@.len() {
                assert(ids[index as int] == self.functions@[index as int].id@);
                assert(before[index as int].id != function.id@);
                symbol_order_laws(ids[index as int], function.id@, function.id@);
            }
            crate::sets::insertion_keeps_order(ids, index as int, function.id@);
            crate::sets::insertion_adds_item(before, index as int, function@);
        }
        let ghost added = function@;
        self.functions.insert(index, function);
        proof {
            assert(self@.functions =~= before.insert(index as int, added));
            assert(function_ids(self@.functions) =~= ids.insert(index as int, added.id));
        }
    }

}

impl ProgramGraph {
    /// The graph of some analyses. A symbol that two functions have is an
    /// error.
    #[verifier::rlimit(30)]
    pub fn from_files(files: Vec<FileAnalysis>) -> (result: Result<ProgramGraph, String>)
        ensures
            match result {
                Ok(graph) => {
                    let all = all_functions(analysis_models(files@), files@.len());
                    first_repeat(all, 0) is None && holds_files(graph@, analysis_models(files@))
                },
                Err(message) => {
                    let all = all_functions(analysis_models(files@), files@.len());
                    match first_repeat(all, 0) {
                        Some(index) => message@ == "duplicate symbol: "@ + symbol_text(
                            all[index as int].id,
                        ),
                        None => false,
                    }
                },
            },
            graph_result(result) == graph_from(analysis_models(files@)),
    {
        let ghost models = analysis_models(files@);
        let ghost all = all_functions(models, files@.len());
        let mut graph = GraphDraft {
            functions: Vec::new(),
            facts: Vec::new(),
            source_files: Vec::new(),
            declared_roots: Vec::new(),
        };
        proof {
            assert(graph@.functions =~= all_functions(models, 0));
            assert(graph@.facts =~= all_facts(models, 0));
            assert(graph@.source_files =~= all_files(models, 0));
            assert(graph@.declared_roots.to_set() =~= all_roots(models, 0));
        }
        let mut position: usize = 0;
        while position < files.len()
            invariant
                position <= files@.len(),
                models == analysis_models(files@),
                all == all_functions(models, files@.len()),
                in_order(graph@),
                graph@.functions.to_set() == all_functions(models, position as nat).to_set(),
                graph@.facts == all_facts(models, position as nat),
                graph@.source_files == all_files(models, position as nat),
                graph@.declared_roots.to_set() == all_roots(models, position as nat),
                forall|k: int|
                    0 <= k < all_functions(models, position as nat).len() ==> !#[trigger] repeats(
                        all,
                        k,
                    ),
            decreases files@.len() - position,
        {
            let file = &files[position];
            let ghost model = models[position as int];
            let ghost done = all_functions(models, position as nat);
            proof {
                assert(model == file@);
                functions_are_prefixes(models, (position + 1) as nat, files@.len());
            }
            graph.add_paths(&file.source_files);
            graph.add_roots(&file.roots);
            let ghost listed = graph@.source_files;
            let ghost stands = function_files(model.functions);
            let mut index: usize = 0;
            proof {
                assert(done =~= done + model.functions.take(0));
            }
            while index < file.functions.len()
                invariant
                    index <= file.functions@.len(),
                    model == file@,
                    position < files@.len(),
                    models == analysis_models(files@),
                    model == models[position as int],
                    all == all_functions(models, files@.len()),
                    done == all_functions(models, position as nat),
                    all_functions(models, (position + 1) as nat) == done + model.functions,
                    (done + model.functions).len() <= all.len(),
                    all.take((done + model.functions).len() as int) == done + model.functions,
                    stands == function_files(model.functions),
                    in_order(graph@),
                    graph@.functions.to_set() == (done + model.functions.take(
                        index as int,
                    )).to_set(),
                    graph@.facts == all_facts(models, position as nat),
                    graph@.source_files == with_paths(listed, stands, index as nat),
                    graph@.declared_roots.to_set() == all_roots(models, (position + 1) as nat),
                    forall|k: int| 0 <= k < done.len() + index ==> !#[trigger] repeats(all, k),
                decreases file.functions@.len() - index,
            {
                let function = &file.functions[index];
                let ghost place = (done.len() + index) as int;
                let ghost seen = done + model.functions.take(index as int);
                proof {
                    assert(model.functions[index as int] == function@);
                    assert(all[place] == all.take((done + model.functions).len() as int)[place]);
                    assert(all[place] == function@);
                    assert(stands[index as int] == function@.span.file);
                    added_path_keeps_order(graph@.source_files, function@.span.file);
                    function_from_finds(graph@.functions, function.id@, 0);
                    assert forall|k: int| 0 <= k < place implies #[trigger] seen[k] == all[k] by {
                        assert(all[k] == all.take((done + model.functions).len() as int)[k]);
                    }
                }
                insert_path(&mut graph.source_files, function.span.file.clone());
                if find_function(&graph.functions, &function.id).is_some() {
                    proof {
                        let found = function_at(graph@, function.id@)->0 as int;
                        function_from_finds(graph@.functions, function.id@, 0);
                        let twin = graph@.functions[found];
                        assert(graph@.functions.to_set().contains(twin));
                        assert(seen.contains(twin));
                        let earlier = choose|k: int| 0 <= k < seen.len() && seen[k] == twin;
                        assert(all[earlier].id == all[place].id);
                        assert(repeats(all, place));
                        no_repeat_before(all, place as nat);
                    }
                    return Err(concat_texts("duplicate symbol: ", function.id.to_text().as_str()));
                }
                graph.add_function(function.clone());
                proof {
                    assert(!repeats(all, place)) by {
                        if repeats(all, place) {
                            let earlier = choose|k: int|
                                0 <= k < place && (#[trigger] all[k]).id == all[place].id;
                            assert(seen[earlier] == all[earlier]);
                            assert(seen.to_set().contains(seen[earlier]));
                        }
                    }
                    let next = done + model.functions.take(index + 1);
                    assert(next =~= seen.insert(place, function@));
                    crate::sets::insertion_adds_item(seen, place, function@);
                }
                index += 1;
            }
            proof {
                assert(model.functions.take(index as int) =~= model.functions);
            }
            let ghost facts_before = graph@.facts;
            let mut k: usize = 0;
            proof {
                assert(model.facts.take(0) =~= Seq::<FactModel>::empty());
                assert(facts_before + model.facts.take(0) =~= facts_before);
            }
            let ghost settled = graph@;
            while k < file.facts.len()
                invariant
                    k <= file.facts@.len(),
                    model == file@,
                    graph@ == (GraphModel {
                        facts: facts_before + model.facts.take(k as int),
                        ..settled
                    }),
                decreases file.facts@.len() - k,
            {
                let ghost before = graph@.facts;
                graph.facts.push(file.facts[k].clone());
                proof {
                    assert(model.facts[k as int] == file.facts@[k as int]@);
                    assert(graph@.facts =~= before.push(model.facts[k as int]));
                    assert(graph@.facts =~= facts_before + model.facts.take(k + 1));
                }
                k += 1;
            }
            proof {
                assert(model.facts.take(k as int) =~= model.facts);
            }
            position += 1;
        }
        proof {
            assert forall|k: int| 0 <= k < all.len() implies !#[trigger] repeats(all, k) by {}
            no_repeat_before(all, all.len());
            graphs_are_unique(graph@, models);
        }
        Ok(
            ProgramGraph {
                functions: graph.functions,
                facts: graph.facts,
                source_files: graph.source_files,
                declared_roots: graph.declared_roots,
            },
        )
    }
}

/// Functions with the same symbols in the same order, made of the same
/// functions, are the same list.
proof fn ordered_functions_are_unique(left: Seq<FunctionModel>, right: Seq<FunctionModel>)
    requires
        symbols_in_order(function_ids(left)),
        symbols_in_order(function_ids(right)),
        left.to_set() == right.to_set(),
    ensures
        left == right,
{
    let one = function_ids(left);
    let two = function_ids(right);
    assert forall|id: SymbolModel| one.to_set().contains(id) == two.to_set().contains(id) by {
        if one.contains(id) {
            let k = choose|k: int| 0 <= k < one.len() && one[k] == id;
            assert(left.to_set().contains(left[k]));
            assert(right.contains(left[k]));
            let m = choose|m: int| 0 <= m < right.len() && right[m] == left[k];
            assert(two[m] == id);
        }
        if two.contains(id) {
            let k = choose|k: int| 0 <= k < two.len() && two[k] == id;
            assert(right.to_set().contains(right[k]));
            assert(left.contains(right[k]));
            let m = choose|m: int| 0 <= m < left.len() && left[m] == right[k];
            assert(one[m] == id);
        }
    }
    assert(one.to_set() =~= two.to_set());
    crate::sets::ordered_lists_are_unique(one, two, one.to_set());
    assert(left.len() == one.len());
    assert(right.len() == two.len());
    assert forall|k: int| 0 <= k < left.len() implies left[k] == right[k] by {
        assert(left.to_set().contains(left[k]));
        assert(right.contains(left[k]));
        let m = choose|m: int| 0 <= m < right.len() && right[m] == left[k];
        assert(two[m] == one[k]);
        symbol_order_laws(two[m], two[k], two[m]);
    }
    assert(left =~= right);
}

/// The graph of some analyses, or what is said of a symbol that comes up
/// twice.
pub open spec fn graph_from(files: Seq<AnalysisModel>) -> Result<GraphModel, Seq<char>> {
    let all = all_functions(files, files.len());
    match first_repeat(all, 0) {
        Some(index) => Err("duplicate symbol: "@ + symbol_text(all[index as int].id)),
        None => Ok(choose|graph: GraphModel| holds_files(graph, files)),
    }
}

/// Analyses have one graph only.
pub proof fn graphs_are_unique(graph: GraphModel, files: Seq<AnalysisModel>)
    requires
        holds_files(graph, files),
        first_repeat(all_functions(files, files.len()), 0) is None,
    ensures
        graph_from(files) == Ok::<_, Seq<char>>(graph),
{
    let other = choose|other: GraphModel| holds_files(other, files);
    assert(holds_files(other, files));
    ordered_functions_are_unique(graph.functions, other.functions);
    crate::sets::ordered_lists_are_unique(
        graph.declared_roots,
        other.declared_roots,
        graph.declared_roots.to_set(),
    );
    assert(graph =~= other);
}

/// The model of a graph or of what went wrong.
pub open spec fn graph_result(result: Result<ProgramGraph, String>) -> Result<
    GraphModel,
    Seq<char>,
> {
    match result {
        Ok(graph) => Ok(graph@),
        Err(message) => Err(message@),
    }
}

/// Putting files into a graph loses no function and adds none.
pub proof fn graphs_hold_their_functions(
    graph: GraphModel,
    files: Seq<AnalysisModel>,
    function: FunctionModel,
)
    requires
        holds_files(graph, files),
    ensures
        graph.functions.contains(function) == all_functions(files, files.len()).contains(function),
{
    assert(graph.functions.to_set().contains(function) == all_functions(
        files,
        files.len(),
    ).to_set().contains(function));
}

} // verus!
