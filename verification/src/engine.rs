//! Reports on call graphs: what changed between two, and what one holds.
use crate::diff::{
    collapse_unchanged_subtrees, collapsed, compared_optional, diff_optional, has_changes,
    optional_node, tree_has_changes, truncate_diff_tree, truncated, DiffModel, DiffNode,
};
use crate::entries::{
    entries_result, function_lines, resolved_entries, resolved_entries_in_file,
};
use crate::files::{leads_to, optional_file, FileModel, KnownFile, SourceFile};
use crate::graph::{analysis_models, function_at, graph_from, GraphModel, ProgramGraph};
use crate::lists::views;
use crate::model::{
    path_models, symbol_less, symbol_models, symbol_order_laws, AnalysisModel, CallNode,
    FileAnalysis, NodeModel, SymbolId, SymbolModel,
};
use crate::ocaml::analyze::{
    analyze_ocaml_file, file_analysis, ocaml_error_text, optional_events,
};
use crate::ocaml::events::{EventModel, TypedCallEvent};
use crate::paths::{path_key, path_less, same_place, SourcePath};
use crate::roots::{file_root_symbols, root_symbols};
use crate::sets::{
    has_symbol, insert_path, insert_symbol, listed_symbols, listed_texts, symbol_list,
    symbols_in_order, text_list, with_paths,
};
use crate::text::{concat_texts, copy_texts, optional, texts};
use crate::trees::{optional_tree, tree_of, ExpansionModel};
use vstd::prelude::*;

verus! {

/// What is asked of a report: the entries to show, where not all roots, and
/// how deep the trees go.
#[derive(Debug)]
pub struct DiffOptions {
    pub entries: Vec<String>,
    pub max_depth: usize,
}

impl Default for DiffOptions {
    fn default() -> (result: Self)
        ensures
            result.entries@.len() == 0,
            result.max_depth == 8,
    {
        DiffOptions { entries: Vec::new(), max_depth: 8 }
    }
}

impl Clone for DiffOptions {
    fn clone(&self) -> (result: Self)
        ensures
            texts(result.entries@) == texts(self.entries@),
            result.max_depth == self.max_depth,
    {
        DiffOptions { entries: copy_texts(&self.entries), max_depth: self.max_depth }
    }
}

/// The comparison of the call trees of one entry.
#[derive(Debug)]
pub struct EntryDiff {
    pub entry: SymbolId,
    pub tree: DiffNode,
}

#[verifier::ext_equal]
pub struct EntryDiffModel {
    pub entry: SymbolModel,
    pub tree: DiffModel,
}

impl View for EntryDiff {
    type V = EntryDiffModel;

    open spec fn view(&self) -> EntryDiffModel {
        EntryDiffModel { entry: self.entry@, tree: self.tree@ }
    }
}

impl Clone for EntryDiff {
    fn clone(&self) -> (result: Self)
        ensures
            result@ == self@,
    {
        EntryDiff { entry: self.entry.clone(), tree: self.tree.clone() }
    }
}

/// What changed between two programs.
#[derive(Debug)]
pub struct DiffReport {
    pub language: String,
    pub before: String,
    pub after: String,
    pub trees: Vec<EntryDiff>,
    /// What to say in place of trees.
    pub message: Option<String>,
    /// In order, each place once.
    pub analyzed_files: Vec<SourcePath>,
    pub diagnostics: Vec<String>,
}

#[verifier::ext_equal]
pub struct DiffReportModel {
    pub language: Seq<char>,
    pub before: Seq<char>,
    pub after: Seq<char>,
    pub trees: Seq<EntryDiffModel>,
    pub message: Option<Seq<char>>,
    pub analyzed_files: Seq<Seq<char>>,
    pub diagnostics: Seq<Seq<char>>,
}

/// The models of a list of compared entries.
pub open spec fn entry_diff_models(trees: Seq<EntryDiff>) -> Seq<EntryDiffModel> {
    trees.map_values(|tree: EntryDiff| tree@)
}

impl View for DiffReport {
    type V = DiffReportModel;

    open spec fn view(&self) -> DiffReportModel {
        DiffReportModel {
            language: self.language@,
            before: self.before@,
            after: self.after@,
            trees: entry_diff_models(self.trees@),
            message: optional(self.message),
            analyzed_files: path_models(self.analyzed_files@),
            diagnostics: texts(self.diagnostics@),
        }
    }
}

/// The call tree of one entry.
#[derive(Debug)]
pub struct EntryTree {
    pub entry: SymbolId,
    pub tree: CallNode,
}

#[verifier::ext_equal]
pub struct EntryTreeModel {
    pub entry: SymbolModel,
    pub tree: NodeModel,
}

impl View for EntryTree {
    type V = EntryTreeModel;

    open spec fn view(&self) -> EntryTreeModel {
        EntryTreeModel { entry: self.entry@, tree: self.tree@ }
    }
}

impl Clone for EntryTree {
    fn clone(&self) -> (result: Self)
        ensures
            result@ == self@,
    {
        EntryTree { entry: self.entry.clone(), tree: self.tree.clone() }
    }
}

/// The call trees of one source file.
#[derive(Debug)]
pub struct TreeReport {
    pub language: String,
    pub source: String,
    pub trees: Vec<EntryTree>,
    /// What to say in place of trees.
    pub message: Option<String>,
    pub diagnostics: Vec<String>,
}

#[verifier::ext_equal]
pub struct TreeReportModel {
    pub language: Seq<char>,
    pub source: Seq<char>,
    pub trees: Seq<EntryTreeModel>,
    pub message: Option<Seq<char>>,
    pub diagnostics: Seq<Seq<char>>,
}

/// The models of a list of entries.
pub open spec fn entry_tree_models(trees: Seq<EntryTree>) -> Seq<EntryTreeModel> {
    trees.map_values(|tree: EntryTree| tree@)
}

impl View for TreeReport {
    type V = TreeReportModel;

    open spec fn view(&self) -> TreeReportModel {
        TreeReportModel {
            language: self.language@,
            source: self.source@,
            trees: entry_tree_models(self.trees@),
            message: optional(self.message),
            diagnostics: texts(self.diagnostics@),
        }
    }
}

/// Where a symbol's function stands; symbols without a function come behind
/// all that stand in files without a name.
pub open spec fn source_place(graph: GraphModel, symbol: SymbolModel) -> (Seq<char>, usize, usize) {
    match function_at(graph, symbol) {
        Some(place) => {
            let span = graph.functions[place as int].span;
            (span.file, span.start_line, span.start_column)
        },
        None => (Seq::empty(), usize::MAX, usize::MAX),
    }
}

/// Whether one symbol's function stands before another's.
pub open spec fn sorts_before(graph: GraphModel, left: SymbolModel, right: SymbolModel) -> bool {
    let (left_file, left_line, left_column) = source_place(graph, left);
    let (right_file, right_line, right_column) = source_place(graph, right);
    if !same_place(left_file, right_file) {
        path_less(left_file, right_file)
    } else if left_line != right_line {
        left_line < right_line
    } else if left_column != right_column {
        left_column < right_column
    } else {
        symbol_less(left, right)
    }
}

/// Standing before is a strict total order of symbols.
pub proof fn sort_order_laws(
    graph: GraphModel,
    left: SymbolModel,
    right: SymbolModel,
    third: SymbolModel,
)
    ensures
        !sorts_before(graph, left, left),
        sorts_before(graph, left, right) ==> !sorts_before(graph, right, left),
        sorts_before(graph, left, right) || sorts_before(graph, right, left) || left == right,
        sorts_before(graph, left, right) && sorts_before(graph, right, third) ==> sorts_before(
            graph,
            left,
            third,
        ),
{
    let a = path_key(source_place(graph, left).0);
    let b = path_key(source_place(graph, right).0);
    let c = path_key(source_place(graph, third).0);
    crate::text::list_order_laws(a, b, c);
    crate::text::list_order_laws(b, c, a);
    crate::text::list_order_laws(a, c, b);
    symbol_order_laws(left, right, third);
}

/// How many symbols at the front stand before one.
pub open spec fn sort_position(
    graph: GraphModel,
    symbols: Seq<SymbolModel>,
    symbol: SymbolModel,
    index: nat,
) -> nat
    decreases symbols.len() - index,
{
    if index < symbols.len() && sorts_before(graph, symbols[index as int], symbol) {
        sort_position(graph, symbols, symbol, index + 1)
    } else {
        index
    }
}

/// The first `count` symbols as their functions stand in the source.
pub open spec fn sorted_by_source(
    graph: GraphModel,
    symbols: Seq<SymbolModel>,
    count: nat,
) -> Seq<SymbolModel>
    decreases count,
{
    if count == 0 {
        Seq::empty()
    } else {
        let before = sorted_by_source(graph, symbols, (count - 1) as nat);
        let symbol = symbols[count - 1];
        before.insert(sort_position(graph, before, symbol, 0) as int, symbol)
    }
}

proof fn sort_position_is_first(
    graph: GraphModel,
    symbols: Seq<SymbolModel>,
    symbol: SymbolModel,
    index: nat,
)
    requires
        index <= symbols.len(),
    ensures
        index <= sort_position(graph, symbols, symbol, index) <= symbols.len(),
        forall|k: int|
            index <= k < sort_position(graph, symbols, symbol, index) ==> sorts_before(
                graph,
                #[trigger] symbols[k],
                symbol,
            ),
        sort_position(graph, symbols, symbol, index) < symbols.len() ==> !sorts_before(
            graph,
            symbols[sort_position(graph, symbols, symbol, index) as int],
            symbol,
        ),
    decreases symbols.len() - index,
{
    if index < symbols.len() && sorts_before(graph, symbols[index as int], symbol) {
        sort_position_is_first(graph, symbols, symbol, index + 1);
    }
}

/// Sorting puts each symbol behind those that stand before it, and keeps all.
pub proof fn sorting_puts_in_order(graph: GraphModel, symbols: Seq<SymbolModel>, count: nat)
    requires
        count <= symbols.len(),
    ensures
        sorted_by_source(graph, symbols, count).len() == count,
        sorted_by_source(graph, symbols, count).to_multiset() == symbols.take(
            count as int,
        ).to_multiset(),
        forall|i: int, j: int|
            0 <= i < j < count ==> !sorts_before(
                graph,
                #[trigger] sorted_by_source(graph, symbols, count)[j],
                #[trigger] sorted_by_source(graph, symbols, count)[i],
            ),
    decreases count,
{
    broadcast use vstd::seq_lib::group_to_multiset_ensures;

    if count == 0 {
        assert(symbols.take(0) =~= Seq::<SymbolModel>::empty());
    } else {
        sorting_puts_in_order(graph, symbols, (count - 1) as nat);
        let before = sorted_by_source(graph, symbols, (count - 1) as nat);
        let symbol = symbols[count - 1];
        sort_position_is_first(graph, before, symbol, 0);
        let place = sort_position(graph, before, symbol, 0) as int;
        let after = sorted_by_source(graph, symbols, count);
        assert(symbols.take(count as int) =~= symbols.take(count - 1).push(symbol));
        vstd::seq_lib::to_multiset_insert(before, place, symbol);
        assert forall|i: int, j: int| 0 <= i < j < count implies !sorts_before(
            graph,
            #[trigger] after[j],
            #[trigger] after[i],
        ) by {
            if i < place && j == place {
                sort_order_laws(graph, before[i], symbol, symbol);
            } else if i == place {
                if sorts_before(graph, after[j], symbol) {
                    assert(after[j] == before[j - 1]);
                    if j - 1 != place {
                        sort_order_laws(graph, before[place], before[j - 1], symbol);
                        assert(!sorts_before(graph, before[j - 1], before[place]));
                        sort_order_laws(graph, before[j - 1], symbol, before[place]);
                        sort_order_laws(graph, symbol, before[place], symbol);
                    }
                }
            } else if j < place {
                assert(after[i] == before[i] && after[j] == before[j]);
            } else if i < place {
                assert(after[i] == before[i] && after[j] == before[j - 1]);
            } else {
                assert(after[i] == before[i - 1] && after[j] == before[j - 1]);
            }
        }
    }
}

/// The symbols among the first `count` that are, or are not, in another list.
pub open spec fn shared(
    symbols: Seq<SymbolModel>,
    others: Seq<SymbolModel>,
    wanted: bool,
    count: nat,
) -> Seq<SymbolModel>
    decreases count,
{
    if count == 0 {
        Seq::empty()
    } else {
        let before = shared(symbols, others, wanted, (count - 1) as nat);
        if others.contains(symbols[count - 1]) == wanted {
            before.push(symbols[count - 1])
        } else {
            before
        }
    }
}

/// All symbols of a list, as their functions stand in the source.
pub open spec fn in_source_order(graph: GraphModel, symbols: Seq<SymbolModel>) -> Seq<SymbolModel> {
    sorted_by_source(graph, symbols, symbols.len())
}

/// The roots of two graphs: those of both, those only before, those only
/// after, each as they stand in the source.
pub open spec fn root_union(
    before: GraphModel,
    after: GraphModel,
    before_roots: Seq<SymbolModel>,
    after_roots: Seq<SymbolModel>,
) -> Seq<SymbolModel> {
    in_source_order(before, shared(before_roots, after_roots, true, before_roots.len()))
        + in_source_order(before, shared(before_roots, after_roots, false, before_roots.len()))
        + in_source_order(after, shared(after_roots, before_roots, false, after_roots.len()))
}

fn place_of(graph: &ProgramGraph, symbol: &SymbolId) -> (result: (SourcePath, usize, usize))
    ensures
        (result.0@, result.1, result.2) == source_place(graph@, symbol@),
{
    match graph.find(symbol) {
        Some(place) => {
            assert(graph@.functions[place as int] == graph.functions@[place as int]@);
            let span = &graph.functions[place].span;
            (span.file.clone(), span.start_line, span.start_column)
        },
        None => {
            proof {
                reveal_strlit("");
                assert(""@ =~= Seq::<char>::empty());
            }
            (SourcePath::new(""), usize::MAX, usize::MAX)
        },
    }
}

fn is_sorted_before(graph: &ProgramGraph, left: &SymbolId, right: &SymbolId) -> (result: bool)
    ensures
        result == sorts_before(graph@, left@, right@),
{
    let (left_file, left_line, left_column) = place_of(graph, left);
    let (right_file, right_line, right_column) = place_of(graph, right);
    if !left_file.same(&right_file) {
        return left_file.before(&right_file);
    }
    if left_line != right_line {
        return left_line < right_line;
    }
    if left_column != right_column {
        return left_column < right_column;
    }
    left.before(right)
}

fn sort_by_source(symbols: &Vec<SymbolId>, graph: &ProgramGraph) -> (result: Vec<SymbolId>)
    ensures
        symbol_models(result@) == in_source_order(graph@, symbol_models(symbols@)),
{
    let ghost models = symbol_models(symbols@);
    let mut result: Vec<SymbolId> = Vec::new();
    let mut index: usize = 0;
    proof {
        assert(symbol_models(result@) =~= Seq::<SymbolModel>::empty());
    }
    while index < symbols.len()
        invariant
            index <= symbols@.len(),
            models == symbol_models(symbols@),
            symbol_models(result@) == sorted_by_source(graph@, models, index as nat),
        decreases symbols@.len() - index,
    {
        let symbol = &symbols[index];
        let ghost before = symbol_models(result@);
        assert(models[index as int] == symbol@);
        let mut place: usize = 0;
        while place < result.len() && is_sorted_before(graph, &result[place], symbol)
            invariant
                place <= result@.len(),
                before == symbol_models(result@),
                sort_position(graph@, before, symbol@, place as nat) == sort_position(
                    graph@,
                    before,
                    symbol@,
                    0,
                ),
            decreases result@.len() - place,
        {
            assert(before[place as int] == result@[place as int]@);
            place += 1;
        }
        proof {
            if place < result@.len() {
                assert(before[place as int] == result@[place as int]@);
            }
        }
        result.insert(place, symbol.clone());
        proof {
            assert(symbol_models(result@) =~= before.insert(place as int, symbol@));
        }
        index += 1;
    }
    result
}

fn share(symbols: &Vec<SymbolId>, others: &Vec<SymbolId>, wanted: bool) -> (result: Vec<SymbolId>)
    ensures
        symbol_models(result@) == shared(
            symbol_models(symbols@),
            symbol_models(others@),
            wanted,
            symbols@.len(),
        ),
{
    let ghost models = symbol_models(symbols@);
    let mut result: Vec<SymbolId> = Vec::new();
    let mut index: usize = 0;
    proof {
        assert(symbol_models(result@) =~= Seq::<SymbolModel>::empty());
    }
    while index < symbols.len()
        invariant
            index <= symbols@.len(),
            models == symbol_models(symbols@),
            symbol_models(result@) == shared(
                models,
                symbol_models(others@),
                wanted,
                index as nat,
            ),
        decreases symbols@.len() - index,
    {
        assert(models[index as int] == symbols@[index as int]@);
        if has_symbol(others, &symbols[index]) == wanted {
            let ghost before = symbol_models(result@);
            result.push(symbols[index].clone());
            proof {
                assert(symbol_models(result@) =~= before.push(symbols@[index as int]@));
            }
        }
        index += 1;
    }
    result
}

fn append_symbols(target: &mut Vec<SymbolId>, added: &Vec<SymbolId>)
    ensures
        symbol_models(final(target)@) == symbol_models(old(target)@) + symbol_models(added@),
{
    let ghost before = symbol_models(target@);
    let ghost models = symbol_models(added@);
    let mut index: usize = 0;
    proof {
        assert(before + models.take(0) =~= before);
    }
    while index < added.len()
        invariant
            index <= added@.len(),
            models == symbol_models(added@),
            symbol_models(target@) == before + models.take(index as int),
        decreases added@.len() - index,
    {
        let ghost reached = symbol_models(target@);
        target.push(added[index].clone());
        proof {
            assert(models[index as int] == added@[index as int]@);
            assert(symbol_models(target@) =~= reached.push(models[index as int]));
            assert(reached.push(models[index as int]) =~= before + models.take(index + 1));
        }
        index += 1;
    }
    proof {
        assert(models.take(added@.len() as int) =~= models);
    }
}

fn union_roots(
    before: &ProgramGraph,
    after: &ProgramGraph,
    before_roots: &Vec<SymbolId>,
    after_roots: &Vec<SymbolId>,
) -> (result: Vec<SymbolId>)
    ensures
        symbol_models(result@) == root_union(
            before@,
            after@,
            symbol_models(before_roots@),
            symbol_models(after_roots@),
        ),
{
    let mut result = sort_by_source(&share(before_roots, after_roots, true), before);
    append_symbols(
        &mut result,
        &sort_by_source(&share(before_roots, after_roots, false), before),
    );
    append_symbols(
        &mut result,
        &sort_by_source(&share(after_roots, before_roots, false), after),
    );
    result
}

fn ordered_root_union(before: &ProgramGraph, after: &ProgramGraph) -> (result: Vec<SymbolId>)
    requires
        before.well_formed(),
        after.well_formed(),
    ensures
        symbol_models(result@) == root_union(
            before@,
            after@,
            root_symbols(before@),
            root_symbols(after@),
        ),
{
    union_roots(before, after, &before.inferred_roots(), &after.inferred_roots())
}

fn ordered_file_root_union(
    before: &ProgramGraph,
    after: &ProgramGraph,
    before_file: &SourceFile,
    after_file: &SourceFile,
) -> (result: Vec<SymbolId>)
    requires
        before.well_formed(),
        after.well_formed(),
    ensures
        symbol_models(result@) == root_union(
            before@,
            after@,
            file_root_symbols(before@, before_file@),
            file_root_symbols(after@, after_file@),
        ),
{
    union_roots(
        before,
        after,
        &before.roots_in_file(before_file),
        &after.roots_in_file(after_file),
    )
}

/// What an entry resolves to, in a selected file or anywhere.
pub open spec fn entry_symbols(
    graph: GraphModel,
    file: Option<FileModel>,
    entry: Seq<char>,
) -> Result<Seq<SymbolModel>, Seq<char>> {
    match file {
        Some(file) => resolved_entries_in_file(graph, entry, file),
        None => resolved_entries(graph, entry),
    }
}

/// What is said of an entry that nothing answers to.
pub open spec fn missing_entry(in_file: bool, entry: Seq<char>) -> Seq<char> {
    if in_file {
        "entry not found in selected file: "@ + entry
    } else {
        "entry not found: "@ + entry
    }
}

/// What the first `count` entries resolve to, before or after.
pub open spec fn explicit_symbols(
    before: GraphModel,
    after: GraphModel,
    before_file: Option<FileModel>,
    after_file: Option<FileModel>,
    entries: Seq<Seq<char>>,
    count: nat,
) -> Result<Set<SymbolModel>, Seq<char>>
    decreases count,
{
    if count == 0 {
        Ok(Set::empty())
    } else {
        let entry = entries[count - 1];
        match explicit_symbols(
            before,
            after,
            before_file,
            after_file,
            entries,
            (count - 1) as nat,
        ) {
            Err(message) => Err(message),
            Ok(found) => match entry_symbols(before, before_file, entry) {
                Err(message) => Err(message),
                Ok(left) => match entry_symbols(after, after_file, entry) {
                    Err(message) => Err(message),
                    Ok(right) => if left.len() == 0 && right.len() == 0 {
                        Err(missing_entry(before_file is Some, entry))
                    } else {
                        Ok(found.union(left.to_set()).union(right.to_set()))
                    },
                },
            },
        }
    }
}

proof fn explicit_errors_stay(
    before: GraphModel,
    after: GraphModel,
    before_file: Option<FileModel>,
    after_file: Option<FileModel>,
    entries: Seq<Seq<char>>,
    left: nat,
    right: nat,
)
    requires
        left <= right,
        explicit_symbols(before, after, before_file, after_file, entries, left) is Err,
    ensures
        explicit_symbols(before, after, before_file, after_file, entries, right)
            == explicit_symbols(before, after, before_file, after_file, entries, left),
    decreases right,
{
    if left < right {
        explicit_errors_stay(
            before,
            after,
            before_file,
            after_file,
            entries,
            left,
            (right - 1) as nat,
        );
    }
}

fn resolve_in(graph: &ProgramGraph, file: Option<&SourceFile>, entry: &str) -> (result: Result<
    Vec<SymbolId>,
    String,
>)
    ensures
        entries_result(result) == entry_symbols(graph@, optional_file(file), entry@),
{
    match file {
        Some(file) => graph.resolve_entries_in_file(entry, file),
        None => graph.resolve_entries(entry),
    }
}

fn add_symbols(set: &mut Vec<SymbolId>, added: &Vec<SymbolId>)
    requires
        symbols_in_order(symbol_models(old(set)@)),
    ensures
        symbols_in_order(symbol_models(final(set)@)),
        symbol_models(final(set)@).to_set() == symbol_models(old(set)@).to_set().union(
            symbol_models(added@).to_set(),
        ),
{
    let ghost before = symbol_models(set@).to_set();
    let ghost models = symbol_models(added@);
    let mut index: usize = 0;
    proof {
        assert(before.union(models.take(0).to_set()) =~= before);
    }
    while index < added.len()
        invariant
            index <= added@.len(),
            models == symbol_models(added@),
            symbols_in_order(symbol_models(set@)),
            symbol_models(set@).to_set() == before.union(models.take(index as int).to_set()),
        decreases added@.len() - index,
    {
        insert_symbol(set, added[index].clone());
        proof {
            let taken = models.take(index as int);
            let next = models.take(index + 1);
            assert(next =~= taken.insert(index as int, models[index as int]));
            crate::sets::insertion_adds_item(taken, index as int, models[index as int]);
            assert(before.union(taken.to_set()).insert(models[index as int]) =~= before.union(
                next.to_set(),
            ));
        }
        index += 1;
    }
    proof {
        assert(models.take(added@.len() as int) =~= models);
    }
}

/// What the entries resolve to, as one list in order.
pub open spec fn explicit_list(
    before: GraphModel,
    after: GraphModel,
    before_file: Option<FileModel>,
    after_file: Option<FileModel>,
    entries: Seq<Seq<char>>,
) -> Result<Seq<SymbolModel>, Seq<char>> {
    match explicit_symbols(before, after, before_file, after_file, entries, entries.len()) {
        Ok(found) => Ok(symbol_list(found)),
        Err(message) => Err(message),
    }
}

#[verifier::rlimit(30)]
fn resolve_explicit(
    before: &ProgramGraph,
    after: &ProgramGraph,
    before_file: Option<&SourceFile>,
    after_file: Option<&SourceFile>,
    entries: &Vec<String>,
) -> (result: Result<Vec<SymbolId>, String>)
    ensures
        entries_result(result) == explicit_list(
            before@,
            after@,
            optional_file(before_file),
            optional_file(after_file),
            texts(entries@),
        ),
{
    let ghost names = texts(entries@);
    let ghost left_file = optional_file(before_file);
    let ghost right_file = optional_file(after_file);
    let mut resolved: Vec<SymbolId> = Vec::new();
    let mut index: usize = 0;
    proof {
        assert(symbol_models(resolved@).to_set() =~= Set::<SymbolModel>::empty());
    }
    while index < entries.len()
        invariant
            index <= entries@.len(),
            names == texts(entries@),
            left_file == optional_file(before_file),
            right_file == optional_file(after_file),
            symbols_in_order(symbol_models(resolved@)),
            explicit_symbols(before@, after@, left_file, right_file, names, index as nat) == Ok::<
                _,
                Seq<char>,
            >(symbol_models(resolved@).to_set()),
        decreases entries@.len() - index,
    {
        let entry = entries[index].as_str();
        assert(names[index as int] == entry@);
        let left = resolve_in(before, before_file, entry);
        let right = resolve_in(after, after_file, entry);
        let ghost next = explicit_symbols(
            before@,
            after@,
            left_file,
            right_file,
            names,
            (index + 1) as nat,
        );
        let found_left = match left {
            Ok(found) => found,
            Err(message) => {
                proof {
                    assert(next == Err::<Set<SymbolModel>, _>(message@));
                    explicit_errors_stay(
                        before@,
                        after@,
                        left_file,
                        right_file,
                        names,
                        (index + 1) as nat,
                        names.len(),
                    );
                }
                return Err(message);
            },
        };
        let found_right = match right {
            Ok(found) => found,
            Err(message) => {
                proof {
                    assert(next == Err::<Set<SymbolModel>, _>(message@));
                    explicit_errors_stay(
                        before@,
                        after@,
                        left_file,
                        right_file,
                        names,
                        (index + 1) as nat,
                        names.len(),
                    );
                }
                return Err(message);
            },
        };
        if found_left.len() == 0 && found_right.len() == 0 {
            let message = if before_file.is_some() {
                concat_texts("entry not found in selected file: ", entry)
            } else {
                concat_texts("entry not found: ", entry)
            };
            proof {
                assert(next == Err::<Set<SymbolModel>, _>(message@));
                explicit_errors_stay(
                    before@,
                    after@,
                    left_file,
                    right_file,
                    names,
                    (index + 1) as nat,
                    names.len(),
                );
            }
            return Err(message);
        }
        add_symbols(&mut resolved, &found_left);
        add_symbols(&mut resolved, &found_right);
        index += 1;
    }
    proof {
        listed_symbols(symbol_models(resolved@), symbol_models(resolved@).to_set());
    }
    Ok(resolved)
}

fn resolve_explicit_entries(before: &ProgramGraph, after: &ProgramGraph, entries: &Vec<String>)
    -> (result: Result<Vec<SymbolId>, String>)
    ensures
        entries_result(result) == explicit_list(before@, after@, None, None, texts(entries@)),
{
    resolve_explicit(before, after, None, None, entries)
}

fn resolve_explicit_file_entries(
    before: &ProgramGraph,
    after: &ProgramGraph,
    before_file: &SourceFile,
    after_file: &SourceFile,
    entries: &Vec<String>,
) -> (result: Result<Vec<SymbolId>, String>)
    ensures
        entries_result(result) == explicit_list(
            before@,
            after@,
            Some(before_file@),
            Some(after_file@),
            texts(entries@),
        ),
{
    resolve_explicit(before, after, Some(before_file), Some(after_file), entries)
}

/// The expansion of whole trees, in a selected file or anywhere.
pub open spec fn whole(file: Option<FileModel>, max_depth: nat) -> ExpansionModel {
    ExpansionModel { max_depth, file, relevant: None, context: None, boundary_marker: None }
}

/// The comparison of the whole trees of an entry.
pub open spec fn entry_diff(
    before: GraphModel,
    after: GraphModel,
    before_file: Option<FileModel>,
    after_file: Option<FileModel>,
    entry: SymbolModel,
) -> Option<DiffModel> {
    compared_optional(
        tree_of(before, whole(before_file, usize::MAX as nat), entry),
        tree_of(after, whole(after_file, usize::MAX as nat), entry),
    )
}

/// The comparisons of the first `count` entries that show a change, without
/// unchanged subtrees and cut at the greatest depth.
pub open spec fn changed(
    before: GraphModel,
    after: GraphModel,
    before_file: Option<FileModel>,
    after_file: Option<FileModel>,
    entries: Seq<SymbolModel>,
    max_depth: nat,
    count: nat,
) -> Seq<EntryDiffModel>
    decreases count,
{
    if count == 0 {
        Seq::empty()
    } else {
        let entry = entries[count - 1];
        let earlier = changed(
            before,
            after,
            before_file,
            after_file,
            entries,
            max_depth,
            (count - 1) as nat,
        );
        match entry_diff(before, after, before_file, after_file, entry) {
            Some(tree) => if has_changes(tree) {
                earlier.push(EntryDiffModel { entry, tree: truncated(collapsed(tree), max_depth) })
            } else {
                earlier
            },
            None => earlier,
        }
    }
}

fn changed_entries(
    before: &ProgramGraph,
    after: &ProgramGraph,
    before_file: Option<&SourceFile>,
    after_file: Option<&SourceFile>,
    entries: &Vec<SymbolId>,
    max_depth: usize,
) -> (result: Vec<EntryDiff>)
    ensures
        entry_diff_models(result@) == changed(
            before@,
            after@,
            optional_file(before_file),
            optional_file(after_file),
            symbol_models(entries@),
            max_depth as nat,
            entries@.len(),
        ),
{
    let ghost models = symbol_models(entries@);
    let mut result: Vec<EntryDiff> = Vec::new();
    let mut index: usize = 0;
    proof {
        assert(entry_diff_models(result@) =~= Seq::<EntryDiffModel>::empty());
    }
    while index < entries.len()
        invariant
            index <= entries@.len(),
            models == symbol_models(entries@),
            entry_diff_models(result@) == changed(
                before@,
                after@,
                optional_file(before_file),
                optional_file(after_file),
                models,
                max_depth as nat,
                index as nat,
            ),
        decreases entries@.len() - index,
    {
        let entry = &entries[index];
        assert(models[index as int] == entry@);
        let before_tree = before.build_call_tree_in_file(entry, usize::MAX, before_file);
        let after_tree = after.build_call_tree_in_file(entry, usize::MAX, after_file);
        let before_ref = before_tree.as_ref();
        let after_ref = after_tree.as_ref();
        proof {
            assert(optional_node(before_ref) == optional_tree(before_tree));
            assert(optional_node(after_ref) == optional_tree(after_tree));
        }
        let diff = diff_optional(before_ref, after_ref);
        if let Some(found) = diff {
            let mut tree = found;
            if tree_has_changes(&tree) {
                collapse_unchanged_subtrees(&mut tree);
                truncate_diff_tree(&mut tree, max_depth);
                let ghost earlier = entry_diff_models(result@);
                let ghost shown = tree@;
                result.push(EntryDiff { entry: entry.clone(), tree });
                proof {
                    assert(entry_diff_models(result@) =~= earlier.push(
                        EntryDiffModel { entry: entry@, tree: shown },
                    ));
                }
            }
        }
        index += 1;
    }
    result
}

/// What is said where nothing changed.
pub open spec fn no_changes_message(
    language: Seq<char>,
    before: Seq<char>,
    after: Seq<char>,
) -> Seq<char> {
    "No "@ + language + " call changes between "@ + before + " and "@ + after + "."@
}

fn report_from_trees(language: &str, before: &str, after: &str, trees: Vec<EntryDiff>) -> (result:
    DiffReport)
    ensures
        result@ == (DiffReportModel {
            language: language@,
            before: before@,
            after: after@,
            trees: entry_diff_models(trees@),
            message: if trees@.len() == 0 {
                Some(no_changes_message(language@, before@, after@))
            } else {
                None
            },
            analyzed_files: Seq::empty(),
            diagnostics: Seq::empty(),
        }),
{
    let message = if trees.len() == 0 {
        let mut text = concat_texts("No ", language);
        text.append(" call changes between ");
        text.append(before);
        text.append(" and ");
        text.append(after);
        text.append(".");
        Some(text)
    } else {
        None
    };
    DiffReport {
        language: language.to_owned(),
        before: before.to_owned(),
        after: after.to_owned(),
        trees,
        message,
        analyzed_files: Vec::new(),
        diagnostics: Vec::new(),
    }
}

/// What there is to say of how the calls of a graph are resolved.
pub open spec fn diagnostic_list(graph: GraphModel) -> Seq<Seq<char>> {
    text_list(function_lines(graph.functions, graph.functions.len()))
}

/// Each line with something in front.
pub open spec fn prefixed(prefix: Seq<char>, lines: Seq<Seq<char>>) -> Seq<Seq<char>> {
    lines.map_values(|line: Seq<char>| prefix + line)
}

/// What there is to say of how calls are resolved, before and after.
pub open spec fn both_diagnostics(before: GraphModel, after: GraphModel) -> Seq<Seq<char>> {
    prefixed("before: "@, diagnostic_list(before)) + prefixed("after: "@, diagnostic_list(after))
}

fn add_prefixed(result: &mut Vec<String>, prefix: &str, lines: &Vec<String>)
    ensures
        texts(final(result)@) == texts(old(result)@) + prefixed(prefix@, texts(lines@)),
{
    let ghost before = texts(result@);
    let ghost added = prefixed(prefix@, texts(lines@));
    let mut index: usize = 0;
    proof {
        assert(before + added.take(0) =~= before);
    }
    while index < lines.len()
        invariant
            index <= lines@.len(),
            added == prefixed(prefix@, texts(lines@)),
            texts(result@) == before + added.take(index as int),
        decreases lines@.len() - index,
    {
        let ghost reached = texts(result@);
        result.push(concat_texts(prefix, lines[index].as_str()));
        proof {
            assert(texts(result@) =~= reached.push(added[index as int]));
            assert(reached.push(added[index as int]) =~= before + added.take(index + 1));
        }
        index += 1;
    }
    proof {
        assert(added.take(lines@.len() as int) =~= added);
    }
}

fn diagnostics_of(graph: &ProgramGraph) -> (result: Vec<String>)
    ensures
        texts(result@) == diagnostic_list(graph@),
{
    let result = graph.resolution_diagnostics();
    proof {
        listed_texts(
            texts(result@),
            function_lines(graph@.functions, graph@.functions.len()),
        );
    }
    result
}

fn comparison_diagnostics(before: &ProgramGraph, after: &ProgramGraph) -> (result: Vec<String>)
    ensures
        texts(result@) == both_diagnostics(before@, after@),
{
    let mut result: Vec<String> = Vec::new();
    add_prefixed(&mut result, "before: ", &diagnostics_of(before));
    add_prefixed(&mut result, "after: ", &diagnostics_of(after));
    proof {
        assert(texts(result@) =~= both_diagnostics(before@, after@));
    }
    result
}

fn add_files(files: &mut Vec<SourcePath>, added: &Vec<SourcePath>)
    ensures
        path_models(final(files)@) == with_paths(
            path_models(old(files)@),
            path_models(added@),
            added@.len(),
        ),
{
    let ghost before = path_models(files@);
    let ghost models = path_models(added@);
    let mut index: usize = 0;
    while index < added.len()
        invariant
            index <= added@.len(),
            models == path_models(added@),
            path_models(files@) == with_paths(before, models, index as nat),
        decreases added@.len() - index,
    {
        assert(models[index as int] == added@[index as int]@);
        insert_path(files, added[index].clone());
        index += 1;
    }
}

/// The files of two graphs.
pub open spec fn both_files(before: GraphModel, after: GraphModel) -> Seq<Seq<char>> {
    with_paths(
        with_paths(Seq::empty(), before.source_files, before.source_files.len()),
        after.source_files,
        after.source_files.len(),
    )
}

/// The entries of a comparison: those that are asked for, or all roots.
pub open spec fn compared_entries(
    before: GraphModel,
    after: GraphModel,
    before_file: Option<FileModel>,
    after_file: Option<FileModel>,
    entries: Seq<Seq<char>>,
) -> Result<Seq<SymbolModel>, Seq<char>> {
    if entries.len() == 0 {
        match (before_file, after_file) {
            (Some(left), Some(right)) => Ok(
                root_union(
                    before,
                    after,
                    file_root_symbols(before, left),
                    file_root_symbols(after, right),
                ),
            ),
            _ => Ok(root_union(before, after, root_symbols(before), root_symbols(after))),
        }
    } else {
        explicit_list(before, after, before_file, after_file, entries)
    }
}

/// The report on what changed between two graphs, in selected files or
/// anywhere.
pub open spec fn report_of(
    language: Seq<char>,
    before_name: Seq<char>,
    after_name: Seq<char>,
    before: GraphModel,
    after: GraphModel,
    before_file: Option<FileModel>,
    after_file: Option<FileModel>,
    entries: Seq<Seq<char>>,
    max_depth: nat,
) -> Result<DiffReportModel, Seq<char>> {
    match compared_entries(before, after, before_file, after_file, entries) {
        Err(message) => Err(message),
        Ok(candidates) => {
            let trees = changed(
                before,
                after,
                before_file,
                after_file,
                candidates,
                max_depth,
                candidates.len(),
            );
            Ok(
                DiffReportModel {
                    language,
                    before: before_name,
                    after: after_name,
                    trees,
                    message: if trees.len() == 0 {
                        Some(no_changes_message(language, before_name, after_name))
                    } else {
                        None
                    },
                    analyzed_files: both_files(before, after),
                    diagnostics: both_diagnostics(before, after),
                },
            )
        },
    }
}

/// The model of a report or of what went wrong.
pub open spec fn report_result(result: Result<DiffReport, String>) -> Result<
    DiffReportModel,
    Seq<char>,
> {
    match result {
        Ok(report) => Ok(report@),
        Err(message) => Err(message@),
    }
}

fn finish_report(
    language: &str,
    before_name: &str,
    after_name: &str,
    before: &ProgramGraph,
    after: &ProgramGraph,
    trees: Vec<EntryDiff>,
) -> (result: DiffReport)
    ensures
        result@ == (DiffReportModel {
            language: language@,
            before: before_name@,
            after: after_name@,
            trees: entry_diff_models(trees@),
            message: if trees@.len() == 0 {
                Some(no_changes_message(language@, before_name@, after_name@))
            } else {
                None
            },
            analyzed_files: both_files(before@, after@),
            diagnostics: both_diagnostics(before@, after@),
        }),
{
    let report = report_from_trees(language, before_name, after_name, trees);
    let mut files: Vec<SourcePath> = Vec::new();
    proof {
        assert(path_models(files@) =~= Seq::<Seq<char>>::empty());
    }
    add_files(&mut files, &before.source_files);
    add_files(&mut files, &after.source_files);
    DiffReport {
        language: report.language,
        before: report.before,
        after: report.after,
        trees: report.trees,
        message: report.message,
        analyzed_files: files,
        diagnostics: comparison_diagnostics(before, after),
    }
}

/// The report on what changed between two programs.
pub fn build_report(
    language: &str,
    before_name: &str,
    after_name: &str,
    before: &ProgramGraph,
    after: &ProgramGraph,
    options: &DiffOptions,
) -> (result: Result<DiffReport, String>)
    ensures
        report_result(result) == report_of(
            language@,
            before_name@,
            after_name@,
            before@,
            after@,
            None,
            None,
            texts(options.entries@),
            options.max_depth as nat,
        ),
{
    proof {
        use_type_invariant(before);
        use_type_invariant(after);
    }
    let candidates = if options.entries.len() == 0 {
        ordered_root_union(before, after)
    } else {
        match resolve_explicit_entries(before, after, &options.entries) {
            Ok(found) => found,
            Err(message) => {
                return Err(message);
            },
        }
    };
    let trees = changed_entries(before, after, None, None, &candidates, options.max_depth);
    Ok(finish_report(language, before_name, after_name, before, after, trees))
}

/// The report on what changed between two files of two programs.
pub fn build_file_report(
    language: &str,
    before_file: &SourceFile,
    after_file: &SourceFile,
    before: &ProgramGraph,
    after: &ProgramGraph,
    options: &DiffOptions,
) -> (result: Result<DiffReport, String>)
    ensures
        report_result(result) == report_of(
            language@,
            before_file@.path,
            after_file@.path,
            before@,
            after@,
            Some(before_file@),
            Some(after_file@),
            texts(options.entries@),
            options.max_depth as nat,
        ),
{
    proof {
        use_type_invariant(before);
        use_type_invariant(after);
    }
    let candidates = if options.entries.len() == 0 {
        ordered_file_root_union(before, after, before_file, after_file)
    } else {
        match resolve_explicit_file_entries(
            before,
            after,
            before_file,
            after_file,
            &options.entries,
        ) {
            Ok(found) => found,
            Err(message) => {
                return Err(message);
            },
        }
    };
    let trees = changed_entries(
        before,
        after,
        Some(before_file),
        Some(after_file),
        &candidates,
        options.max_depth,
    );
    Ok(
        finish_report(
            language,
            before_file.path.text.as_str(),
            after_file.path.text.as_str(),
            before,
            after,
            trees,
        ),
    )
}

/// What the first `count` entries resolve to in one file, one behind the
/// other.
pub open spec fn listed_entries(
    graph: GraphModel,
    file: FileModel,
    entries: Seq<Seq<char>>,
    count: nat,
) -> Result<Seq<SymbolModel>, Seq<char>>
    decreases count,
{
    if count == 0 {
        Ok(Seq::empty())
    } else {
        let entry = entries[count - 1];
        match listed_entries(graph, file, entries, (count - 1) as nat) {
            Err(message) => Err(message),
            Ok(found) => match resolved_entries_in_file(graph, entry, file) {
                Err(message) => Err(message),
                Ok(symbols) => if symbols.len() == 0 {
                    Err(missing_entry(true, entry))
                } else {
                    Ok(found + symbols)
                },
            },
        }
    }
}

proof fn listing_errors_stay(
    graph: GraphModel,
    file: FileModel,
    entries: Seq<Seq<char>>,
    left: nat,
    right: nat,
)
    requires
        left <= right,
        listed_entries(graph, file, entries, left) is Err,
    ensures
        listed_entries(graph, file, entries, right) == listed_entries(graph, file, entries, left),
    decreases right,
{
    if left < right {
        listing_errors_stay(graph, file, entries, left, (right - 1) as nat);
    }
}

/// The trees of the first `count` entries in one file.
pub open spec fn listed_trees(
    graph: GraphModel,
    file: FileModel,
    entries: Seq<SymbolModel>,
    max_depth: nat,
    count: nat,
) -> Seq<EntryTreeModel>
    decreases count,
{
    if count == 0 {
        Seq::empty()
    } else {
        let entry = entries[count - 1];
        let before = listed_trees(graph, file, entries, max_depth, (count - 1) as nat);
        match tree_of(graph, whole(Some(file), max_depth), entry) {
            Some(tree) => before.push(EntryTreeModel { entry, tree }),
            None => before,
        }
    }
}

/// The entries of a tree report: those that are asked for, or the roots of the
/// file.
pub open spec fn tree_entries(
    graph: GraphModel,
    file: FileModel,
    entries: Seq<Seq<char>>,
) -> Result<Seq<SymbolModel>, Seq<char>> {
    if entries.len() == 0 {
        Ok(file_root_symbols(graph, file))
    } else {
        listed_entries(graph, file, entries, entries.len())
    }
}

/// The report on the call trees of one file.
pub open spec fn tree_report_of(
    language: Seq<char>,
    file: FileModel,
    graph: GraphModel,
    entries: Seq<Seq<char>>,
    max_depth: nat,
) -> Result<TreeReportModel, Seq<char>> {
    match tree_entries(graph, file, entries) {
        Err(message) => Err(message),
        Ok(symbols) => {
            let trees = listed_trees(graph, file, symbols, max_depth, symbols.len());
            Ok(
                TreeReportModel {
                    language,
                    source: file.path,
                    trees,
                    message: if trees.len() == 0 {
                        Some("No "@ + language + " call trees in "@ + file.path + "."@)
                    } else {
                        None
                    },
                    diagnostics: diagnostic_list(graph),
                },
            )
        },
    }
}

/// The model of a tree report or of what went wrong.
pub open spec fn tree_report_result(result: Result<TreeReport, String>) -> Result<
    TreeReportModel,
    Seq<char>,
> {
    match result {
        Ok(report) => Ok(report@),
        Err(message) => Err(message@),
    }
}

fn list_entries(graph: &ProgramGraph, file: &SourceFile, entries: &Vec<String>) -> (result: Result<
    Vec<SymbolId>,
    String,
>)
    ensures
        entries_result(result) == listed_entries(
            graph@,
            file@,
            texts(entries@),
            entries@.len(),
        ),
{
    let ghost names = texts(entries@);
    let mut resolved: Vec<SymbolId> = Vec::new();
    let mut index: usize = 0;
    proof {
        assert(symbol_models(resolved@) =~= Seq::<SymbolModel>::empty());
    }
    while index < entries.len()
        invariant
            index <= entries@.len(),
            names == texts(entries@),
            listed_entries(graph@, file@, names, index as nat) == Ok::<_, Seq<char>>(
                symbol_models(resolved@),
            ),
        decreases entries@.len() - index,
    {
        let entry = entries[index].as_str();
        assert(names[index as int] == entry@);
        let ghost next = listed_entries(graph@, file@, names, (index + 1) as nat);
        match graph.resolve_entries_in_file(entry, file) {
            Err(message) => {
                proof {
                    assert(next == Err::<Seq<SymbolModel>, _>(message@));
                    listing_errors_stay(
                        graph@,
                        file@,
                        names,
                        (index + 1) as nat,
                        names.len(),
                    );
                }
                return Err(message);
            },
            Ok(found) => {
                if found.len() == 0 {
                    let message = concat_texts("entry not found in selected file: ", entry);
                    proof {
                        assert(next == Err::<Seq<SymbolModel>, _>(message@));
                        listing_errors_stay(
                            graph@,
                            file@,
                            names,
                            (index + 1) as nat,
                            names.len(),
                        );
                    }
                    return Err(message);
                }
                append_symbols(&mut resolved, &found);
            },
        }
        index += 1;
    }
    Ok(resolved)
}

/// The report on the call trees of one file.
pub fn build_tree_report(
    language: &str,
    file: &SourceFile,
    graph: &ProgramGraph,
    options: &DiffOptions,
) -> (result: Result<TreeReport, String>)
    ensures
        tree_report_result(result) == tree_report_of(
            language@,
            file@,
            graph@,
            texts(options.entries@),
            options.max_depth as nat,
        ),
{
    proof {
        use_type_invariant(graph);
    }
    let entries = if options.entries.len() == 0 {
        graph.roots_in_file(file)
    } else {
        match list_entries(graph, file, &options.entries) {
            Ok(found) => found,
            Err(message) => {
                return Err(message);
            },
        }
    };
    let ghost symbols = symbol_models(entries@);
    let mut trees: Vec<EntryTree> = Vec::new();
    let mut index: usize = 0;
    proof {
        assert(entry_tree_models(trees@) =~= Seq::<EntryTreeModel>::empty());
    }
    while index < entries.len()
        invariant
            index <= entries@.len(),
            symbols == symbol_models(entries@),
            entry_tree_models(trees@) == listed_trees(
                graph@,
                file@,
                symbols,
                options.max_depth as nat,
                index as nat,
            ),
        decreases entries@.len() - index,
    {
        let entry = &entries[index];
        assert(symbols[index as int] == entry@);
        if let Some(tree) = graph.build_call_tree_in_file(entry, options.max_depth, Some(file)) {
            let ghost before = entry_tree_models(trees@);
            let ghost shown = tree@;
            trees.push(EntryTree { entry: entry.clone(), tree });
            proof {
                assert(entry_tree_models(trees@) =~= before.push(
                    EntryTreeModel { entry: entry@, tree: shown },
                ));
            }
        }
        index += 1;
    }
    let message = if trees.len() == 0 {
        let mut text = concat_texts("No ", language);
        text.append(" call trees in ");
        text.append(file.path.text.as_str());
        text.append(".");
        Some(text)
    } else {
        None
    };
    Ok(
        TreeReport {
            language: language.to_owned(),
            source: file.path.text.clone(),
            trees,
            message,
            diagnostics: diagnostics_of(graph),
        },
    )
}

/// The report on what changed between the programs of some analyses.
pub open spec fn analyses_report(
    language: Seq<char>,
    before_name: Seq<char>,
    after_name: Seq<char>,
    before: Seq<AnalysisModel>,
    after: Seq<AnalysisModel>,
    before_file: Option<FileModel>,
    after_file: Option<FileModel>,
    entries: Seq<Seq<char>>,
    max_depth: nat,
) -> Result<DiffReportModel, Seq<char>> {
    match graph_from(before) {
        Err(message) => Err(message),
        Ok(left) => match graph_from(after) {
            Err(message) => Err(message),
            Ok(right) => report_of(
                language,
                before_name,
                after_name,
                left,
                right,
                before_file,
                after_file,
                entries,
                max_depth,
            ),
        },
    }
}

fn diff_analyses(
    language: &str,
    before_name: &str,
    before: Vec<FileAnalysis>,
    after_name: &str,
    after: Vec<FileAnalysis>,
    options: &DiffOptions,
) -> (result: Result<DiffReport, String>)
    ensures
        report_result(result) == analyses_report(
            language@,
            before_name@,
            after_name@,
            analysis_models(before@),
            analysis_models(after@),
            None,
            None,
            texts(options.entries@),
            options.max_depth as nat,
        ),
{
    let left = match ProgramGraph::from_files(before) {
        Ok(graph) => graph,
        Err(message) => {
            return Err(message);
        },
    };
    let right = match ProgramGraph::from_files(after) {
        Ok(graph) => graph,
        Err(message) => {
            return Err(message);
        },
    };
    build_report(language, before_name, after_name, &left, &right, options)
}

fn single(analysis: FileAnalysis) -> (result: Vec<FileAnalysis>)
    ensures
        analysis_models(result@) == seq![analysis@],
{
    let mut result: Vec<FileAnalysis> = Vec::new();
    result.push(analysis);
    proof {
        assert(analysis_models(result@) =~= seq![analysis@]);
    }
    result
}

/// The models of an analysis that may be missing.
pub open spec fn optional_analysis(analysis: Option<FileAnalysis>) -> Seq<AnalysisModel> {
    match analysis {
        Some(analysis) => seq![analysis@],
        None => Seq::empty(),
    }
}

fn listed(analysis: Option<FileAnalysis>) -> (result: Vec<FileAnalysis>)
    ensures
        analysis_models(result@) == optional_analysis(analysis),
{
    match analysis {
        Some(analysis) => single(analysis),
        None => {
            let result: Vec<FileAnalysis> = Vec::new();
            proof {
                assert(analysis_models(result@) =~= Seq::<AnalysisModel>::empty());
            }
            result
        },
    }
}

/// The report on what changed between two Rust sources, by their analyses.
pub fn rustdiff_sources(
    before_name: &str,
    before: FileAnalysis,
    after_name: &str,
    after: FileAnalysis,
    options: &DiffOptions,
) -> (result: Result<DiffReport, String>)
    ensures
        report_result(result) == analyses_report(
            "rust"@,
            before_name@,
            after_name@,
            seq![before@],
            seq![after@],
            None,
            None,
            texts(options.entries@),
            options.max_depth as nat,
        ),
{
    diff_analyses("rust", before_name, single(before), after_name, single(after), options)
}

/// The report on what changed between two Rust files, by their analyses.
pub fn rustdiff_paths(
    before_path: &SourcePath,
    before: FileAnalysis,
    after_path: &SourcePath,
    after: FileAnalysis,
    options: &DiffOptions,
) -> (result: Result<DiffReport, String>)
    ensures
        report_result(result) == analyses_report(
            "rust"@,
            before_path@,
            after_path@,
            seq![before@],
            seq![after@],
            None,
            None,
            texts(options.entries@),
            options.max_depth as nat,
        ),
{
    rustdiff_sources(
        before_path.text.as_str(),
        before,
        after_path.text.as_str(),
        after,
        options,
    )
}

/// The report on what changed between two Rust projects, by their analyses. A
/// directory without a project has none.
pub fn rustdiff_project_paths(
    before_root: &SourcePath,
    before: Option<FileAnalysis>,
    after_root: &SourcePath,
    after: Option<FileAnalysis>,
    options: &DiffOptions,
) -> (result: Result<DiffReport, String>)
    ensures
        report_result(result) == analyses_report(
            "rust"@,
            before_root@,
            after_root@,
            optional_analysis(before),
            optional_analysis(after),
            None,
            None,
            texts(options.entries@),
            options.max_depth as nat,
        ),
{
    diff_analyses(
        "rust",
        before_root.text.as_str(),
        listed(before),
        after_root.text.as_str(),
        listed(after),
        options,
    )
}

/// The report on what changed between two Rust projects whose analyses may
/// come from a cache.
pub fn rustdiff_project_paths_cached(
    before_root: &SourcePath,
    before: Option<FileAnalysis>,
    after_root: &SourcePath,
    after: Option<FileAnalysis>,
    options: &DiffOptions,
) -> (result: Result<DiffReport, String>)
    ensures
        report_result(result) == analyses_report(
            "rust"@,
            before_root@,
            after_root@,
            optional_analysis(before),
            optional_analysis(after),
            None,
            None,
            texts(options.entries@),
            options.max_depth as nat,
        ),
{
    rustdiff_project_paths(before_root, before, after_root, after, options)
}

/// Whether any of some files is the one that is looked for.
pub open spec fn analyzes(graph: GraphModel, file: FileModel) -> bool {
    exists|k: int|
        0 <= k < graph.source_files.len() && leads_to(file, #[trigger] graph.source_files[k])
}

/// The report on two files of two projects, where either project has its
/// file.
pub open spec fn project_files_report(
    before_file: FileModel,
    after_file: FileModel,
    before: Seq<AnalysisModel>,
    after: Seq<AnalysisModel>,
    entries: Seq<Seq<char>>,
    max_depth: nat,
) -> Result<Option<DiffReportModel>, Seq<char>> {
    match graph_from(before) {
        Err(message) => Err(message),
        Ok(left) => match graph_from(after) {
            Err(message) => Err(message),
            Ok(right) => if !analyzes(left, before_file) && !analyzes(right, after_file) {
                Ok(None)
            } else {
                match report_of(
                    "rust"@,
                    before_file.path,
                    after_file.path,
                    left,
                    right,
                    Some(before_file),
                    Some(after_file),
                    entries,
                    max_depth,
                ) {
                    Ok(report) => Ok(Some(report)),
                    Err(message) => Err(message),
                }
            },
        },
    }
}

/// The report on two files of two Rust projects, by the analyses of the
/// projects. None where neither project has its file.
pub fn rustdiff_project_files(
    before_file: &SourceFile,
    before: Option<FileAnalysis>,
    after_file: &SourceFile,
    after: Option<FileAnalysis>,
    options: &DiffOptions,
) -> (result: Result<Option<DiffReport>, String>)
    ensures
        (match result {
            Ok(Some(report)) => Ok::<_, Seq<char>>(Some(report@)),
            Ok(None) => Ok(None),
            Err(message) => Err(message@),
        }) == project_files_report(
            before_file@,
            after_file@,
            optional_analysis(before),
            optional_analysis(after),
            texts(options.entries@),
            options.max_depth as nat,
        ),
{
    let left = match ProgramGraph::from_files(listed(before)) {
        Ok(graph) => graph,
        Err(message) => {
            return Err(message);
        },
    };
    let right = match ProgramGraph::from_files(listed(after)) {
        Ok(graph) => graph,
        Err(message) => {
            return Err(message);
        },
    };
    if !left.analyzes_file(before_file) && !right.analyzes_file(after_file) {
        return Ok(None);
    }
    match build_file_report("rust", before_file, after_file, &left, &right, options) {
        Ok(report) => Ok(Some(report)),
        Err(message) => Err(message),
    }
}

/// The report on what changed between two OCaml sources: each is analyzed on
/// its own, with what the compiler says of it where it accepts it.
pub open spec fn ocaml_sources_report(
    before_name: Seq<char>,
    before_source: Seq<char>,
    before_events: Option<Seq<EventModel>>,
    after_name: Seq<char>,
    after_source: Seq<char>,
    after_events: Option<Seq<EventModel>>,
    known: Seq<(Seq<char>, Seq<char>)>,
    entries: Seq<Seq<char>>,
    max_depth: nat,
) -> Result<DiffReportModel, Seq<char>> {
    match file_analysis(before_name, Seq::empty(), before_source, before_events, known) {
        Err(error) => Err(ocaml_error_text(error)),
        Ok(before) => match file_analysis(
            after_name,
            Seq::empty(),
            after_source,
            after_events,
            known,
        ) {
            Err(error) => Err(ocaml_error_text(error)),
            Ok(after) => analyses_report(
                "ocaml"@,
                before_name,
                after_name,
                seq![before],
                seq![after],
                None,
                None,
                entries,
                max_depth,
            ),
        },
    }
}

/// The report on what changed between two OCaml sources.
pub fn ocamldiff_sources(
    before_name: &str,
    before_source: &str,
    before_events: Option<&Vec<TypedCallEvent>>,
    after_name: &str,
    after_source: &str,
    after_events: Option<&Vec<TypedCallEvent>>,
    known: &Vec<KnownFile>,
    options: &DiffOptions,
) -> (result: Result<DiffReport, String>)
    ensures
        report_result(result) == ocaml_sources_report(
            before_name@,
            before_source@,
            optional_events(before_events),
            after_name@,
            after_source@,
            optional_events(after_events),
            views(known@),
            texts(options.entries@),
            options.max_depth as nat,
        ),
{
    let module: Vec<String> = Vec::new();
    proof {
        assert(texts(module@) =~= Seq::empty());
    }
    let before = match analyze_ocaml_file(
        &SourcePath::new(before_name),
        &module,
        before_source,
        before_events,
        known,
    ) {
        Ok(analysis) => analysis,
        Err(error) => {
            return Err(error.to_text());
        },
    };
    let after = match analyze_ocaml_file(
        &SourcePath::new(after_name),
        &module,
        after_source,
        after_events,
        known,
    ) {
        Ok(analysis) => analysis,
        Err(error) => {
            return Err(error.to_text());
        },
    };
    diff_analyses("ocaml", before_name, single(before), after_name, single(after), options)
}

/// The report on what changed between two OCaml projects or source trees, by
/// the analyses of their files.
pub fn ocamldiff_paths(
    before_path: &SourcePath,
    before: Vec<FileAnalysis>,
    after_path: &SourcePath,
    after: Vec<FileAnalysis>,
    options: &DiffOptions,
) -> (result: Result<DiffReport, String>)
    ensures
        report_result(result) == analyses_report(
            "ocaml"@,
            before_path@,
            after_path@,
            analysis_models(before@),
            analysis_models(after@),
            None,
            None,
            texts(options.entries@),
            options.max_depth as nat,
        ),
{
    diff_analyses(
        "ocaml",
        before_path.text.as_str(),
        before,
        after_path.text.as_str(),
        after,
        options,
    )
}

/// The report on two files of two OCaml projects, by the analyses of the
/// projects.
pub fn ocamldiff_project_files(
    before_file: &SourceFile,
    before: Vec<FileAnalysis>,
    after_file: &SourceFile,
    after: Vec<FileAnalysis>,
    options: &DiffOptions,
) -> (result: Result<DiffReport, String>)
    ensures
        report_result(result) == analyses_report(
            "ocaml"@,
            before_file@.path,
            after_file@.path,
            analysis_models(before@),
            analysis_models(after@),
            Some(before_file@),
            Some(after_file@),
            texts(options.entries@),
            options.max_depth as nat,
        ),
{
    let left = match ProgramGraph::from_files(before) {
        Ok(graph) => graph,
        Err(message) => {
            return Err(message);
        },
    };
    let right = match ProgramGraph::from_files(after) {
        Ok(graph) => graph,
        Err(message) => {
            return Err(message);
        },
    };
    build_file_report("ocaml", before_file, after_file, &left, &right, options)
}

/// The report on the call trees of a file of a program.
pub open spec fn analyses_tree_report(
    language: Seq<char>,
    file: FileModel,
    analyses: Seq<AnalysisModel>,
    entries: Seq<Seq<char>>,
    max_depth: nat,
) -> Result<TreeReportModel, Seq<char>> {
    match graph_from(analyses) {
        Err(message) => Err(message),
        Ok(graph) => tree_report_of(language, file, graph, entries, max_depth),
    }
}

fn tree_analyses(
    language: &str,
    file: &SourceFile,
    analyses: Vec<FileAnalysis>,
    options: &DiffOptions,
) -> (result: Result<TreeReport, String>)
    ensures
        tree_report_result(result) == analyses_tree_report(
            language@,
            file@,
            analysis_models(analyses@),
            texts(options.entries@),
            options.max_depth as nat,
        ),
{
    match ProgramGraph::from_files(analyses) {
        Ok(graph) => build_tree_report(language, file, &graph, options),
        Err(message) => Err(message),
    }
}

/// The call trees of a Rust file, by its analysis.
pub fn rusttree_path(file: &SourceFile, analysis: FileAnalysis, options: &DiffOptions) -> (result:
    Result<TreeReport, String>)
    ensures
        tree_report_result(result) == analyses_tree_report(
            "rust"@,
            file@,
            seq![analysis@],
            texts(options.entries@),
            options.max_depth as nat,
        ),
{
    tree_analyses("rust", file, single(analysis), options)
}

/// The call trees of a file of a project, where the project has it.
pub open spec fn project_tree_report(
    file: FileModel,
    analyses: Seq<AnalysisModel>,
    entries: Seq<Seq<char>>,
    max_depth: nat,
) -> Result<Option<TreeReportModel>, Seq<char>> {
    match graph_from(analyses) {
        Err(message) => Err(message),
        Ok(graph) => if !analyzes(graph, file) {
            Ok(None)
        } else {
            match tree_report_of("rust"@, file, graph, entries, max_depth) {
                Ok(report) => Ok(Some(report)),
                Err(message) => Err(message),
            }
        },
    }
}

/// The call trees of a file of a Rust project, by the analysis of the project.
/// None where the project does not have the file.
pub fn rusttree_project_file(
    file: &SourceFile,
    analysis: Option<FileAnalysis>,
    options: &DiffOptions,
) -> (result: Result<Option<TreeReport>, String>)
    ensures
        (match result {
            Ok(Some(report)) => Ok::<_, Seq<char>>(Some(report@)),
            Ok(None) => Ok(None),
            Err(message) => Err(message@),
        }) == project_tree_report(
            file@,
            optional_analysis(analysis),
            texts(options.entries@),
            options.max_depth as nat,
        ),
{
    let graph = match ProgramGraph::from_files(listed(analysis)) {
        Ok(graph) => graph,
        Err(message) => {
            return Err(message);
        },
    };
    if !graph.analyzes_file(file) {
        return Ok(None);
    }
    match build_tree_report("rust", file, &graph, options) {
        Ok(report) => Ok(Some(report)),
        Err(message) => Err(message),
    }
}

/// The call trees of an OCaml file, by the analyses of the sources.
pub fn ocamltree_path(file: &SourceFile, analyses: Vec<FileAnalysis>, options: &DiffOptions)
    -> (result: Result<TreeReport, String>)
    ensures
        tree_report_result(result) == analyses_tree_report(
            "ocaml"@,
            file@,
            analysis_models(analyses@),
            texts(options.entries@),
            options.max_depth as nat,
        ),
{
    tree_analyses("ocaml", file, analyses, options)
}

/// The call trees of a file of an OCaml project, by the analyses of the
/// project.
pub fn ocamltree_project_file(
    file: &SourceFile,
    analyses: Vec<FileAnalysis>,
    options: &DiffOptions,
) -> (result: Result<TreeReport, String>)
    ensures
        tree_report_result(result) == analyses_tree_report(
            "ocaml"@,
            file@,
            analysis_models(analyses@),
            texts(options.entries@),
            options.max_depth as nat,
        ),
{
    tree_analyses("ocaml", file, analyses, options)
}

/// What is wrong with a path that sources are to be loaded from, where
/// anything is.
pub fn load_error(language: &str, path: &SourcePath, exists: bool, file_count: usize) -> (result:
    Option<String>)
    ensures
        optional(result) == (if !exists {
            Some("path does not exist: "@ + path@)
        } else if file_count == 0 {
            Some("no "@ + language@ + " source files found under "@ + path@)
        } else {
            None
        }),
{
    if !exists {
        return Some(concat_texts("path does not exist: ", path.text.as_str()));
    }
    if file_count == 0 {
        let mut message = concat_texts("no ", language);
        message.append(" source files found under ");
        message.append(path.text.as_str());
        return Some(message);
    }
    None
}

/// A report shows changed trees only: each tree in it has a change.
pub proof fn reports_show_changes(
    before: GraphModel,
    after: GraphModel,
    before_file: Option<FileModel>,
    after_file: Option<FileModel>,
    entries: Seq<SymbolModel>,
    max_depth: nat,
    count: nat,
    index: int,
)
    requires
        0 <= index < changed(
            before,
            after,
            before_file,
            after_file,
            entries,
            max_depth,
            count,
        ).len(),
    ensures
        has_changes(
            changed(before, after, before_file, after_file, entries, max_depth, count)[index].tree,
        ),
    decreases count,
{
    if count > 0 {
        let earlier = changed(
            before,
            after,
            before_file,
            after_file,
            entries,
            max_depth,
            (count - 1) as nat,
        );
        if index < earlier.len() {
            reports_show_changes(
                before,
                after,
                before_file,
                after_file,
                entries,
                max_depth,
                (count - 1) as nat,
                index,
            );
        } else if let Some(tree) = entry_diff(
            before,
            after,
            before_file,
            after_file,
            entries[count - 1],
        ) {
            crate::diff_laws::collapse_keeps_changes(tree);
            crate::diff_laws::truncation_keeps_changes(collapsed(tree), max_depth);
        }
    }
}

/// A report misses no change: each entry whose whole trees differ is in it.
pub proof fn reports_miss_no_change(
    before: GraphModel,
    after: GraphModel,
    before_file: Option<FileModel>,
    after_file: Option<FileModel>,
    entries: Seq<SymbolModel>,
    max_depth: nat,
    count: nat,
    index: int,
)
    requires
        0 <= index < count <= entries.len(),
        entry_diff(before, after, before_file, after_file, entries[index]) matches Some(tree)
            && has_changes(tree),
    ensures
        exists|k: int|
            0 <= k < changed(
                before,
                after,
                before_file,
                after_file,
                entries,
                max_depth,
                count,
            ).len() && (#[trigger] changed(
                before,
                after,
                before_file,
                after_file,
                entries,
                max_depth,
                count,
            )[k]).entry == entries[index],
    decreases count,
{
    let earlier = changed(
        before,
        after,
        before_file,
        after_file,
        entries,
        max_depth,
        (count - 1) as nat,
    );
    let all = changed(before, after, before_file, after_file, entries, max_depth, count);
    if index < count - 1 {
        reports_miss_no_change(
            before,
            after,
            before_file,
            after_file,
            entries,
            max_depth,
            (count - 1) as nat,
            index,
        );
        let k = choose|k: int|
            0 <= k < earlier.len() && (#[trigger] earlier[k]).entry == entries[index];
        assert(all[k] == earlier[k]);
    } else {
        assert(all[earlier.len() as int].entry == entries[index]);
    }
}

/// A program compared with itself shows no change.
pub proof fn same_program_has_no_changes(
    graph: GraphModel,
    file: Option<FileModel>,
    entries: Seq<SymbolModel>,
    max_depth: nat,
    count: nat,
)
    ensures
        changed(graph, graph, file, file, entries, max_depth, count).len() == 0,
    decreases count,
{
    if count > 0 {
        same_program_has_no_changes(graph, file, entries, max_depth, (count - 1) as nat);
        if let Some(tree) = tree_of(graph, whole(file, usize::MAX as nat), entries[count - 1]) {
            crate::diff_laws::same_tree_has_no_changes(tree);
        }
    }
}

/// Each tree of a report can be shown: its modified nodes carry their previous
/// labels.
pub proof fn reports_carry_labels(
    before: GraphModel,
    after: GraphModel,
    before_file: Option<FileModel>,
    after_file: Option<FileModel>,
    entries: Seq<SymbolModel>,
    max_depth: nat,
    count: nat,
    index: int,
)
    requires
        0 <= index < changed(
            before,
            after,
            before_file,
            after_file,
            entries,
            max_depth,
            count,
        ).len(),
    ensures
        crate::diff_laws::carries_previous_labels(
            changed(before, after, before_file, after_file, entries, max_depth, count)[index].tree,
        ),
    decreases count,
{
    if count > 0 {
        let earlier = changed(
            before,
            after,
            before_file,
            after_file,
            entries,
            max_depth,
            (count - 1) as nat,
        );
        if index < earlier.len() {
            reports_carry_labels(
                before,
                after,
                before_file,
                after_file,
                entries,
                max_depth,
                (count - 1) as nat,
                index,
            );
        } else {
            let entry = entries[count - 1];
            crate::diff_laws::optional_comparisons_carry_labels(
                tree_of(before, whole(before_file, usize::MAX as nat), entry),
                tree_of(after, whole(after_file, usize::MAX as nat), entry),
            );
            if let Some(tree) = entry_diff(before, after, before_file, after_file, entry) {
                crate::diff_laws::views_carry_labels(tree, 0);
                crate::diff_laws::views_carry_labels(collapsed(tree), max_depth);
            }
        }
    }
}

proof fn entries_keep_at_any_depth(
    before: GraphModel,
    after: GraphModel,
    before_file: Option<FileModel>,
    after_file: Option<FileModel>,
    entries: Seq<SymbolModel>,
    depth: nat,
    other: nat,
    count: nat,
)
    ensures
        ({
            let left = changed(before, after, before_file, after_file, entries, depth, count);
            let right = changed(before, after, before_file, after_file, entries, other, count);
            left.len() == right.len() && forall|k: int|
                0 <= k < left.len() ==> (#[trigger] left[k]).entry == right[k].entry
        }),
    decreases count,
{
    if count > 0 {
        let fewer = (count - 1) as nat;
        entries_keep_at_any_depth(
            before,
            after,
            before_file,
            after_file,
            entries,
            depth,
            other,
            fewer,
        );
        let left = changed(before, after, before_file, after_file, entries, depth, count);
        let right = changed(before, after, before_file, after_file, entries, other, count);
        let earlier = changed(before, after, before_file, after_file, entries, depth, fewer);
        let others = changed(before, after, before_file, after_file, entries, other, fewer);
        assert forall|k: int| 0 <= k < left.len() implies (#[trigger] left[k]).entry
            == right[k].entry by {
            if k < earlier.len() {
                assert(left[k] == earlier[k]);
                assert(right[k] == others[k]);
            }
        }
    }
}

/// The greatest depth that is shown does not decide what is told of: reports of
/// the same programs list the same entries and say the same in place of them.
pub proof fn depth_hides_no_entry(
    language: Seq<char>,
    before_name: Seq<char>,
    after_name: Seq<char>,
    before: GraphModel,
    after: GraphModel,
    before_file: Option<FileModel>,
    after_file: Option<FileModel>,
    entries: Seq<Seq<char>>,
    depth: nat,
    other: nat,
)
    ensures
        match (
            report_of(
                language,
                before_name,
                after_name,
                before,
                after,
                before_file,
                after_file,
                entries,
                depth,
            ),
            report_of(
                language,
                before_name,
                after_name,
                before,
                after,
                before_file,
                after_file,
                entries,
                other,
            ),
        ) {
            (Ok(left), Ok(right)) => left.message == right.message && left.trees.len()
                == right.trees.len() && forall|k: int|
                0 <= k < left.trees.len() ==> (#[trigger] left.trees[k]).entry
                    == right.trees[k].entry,
            (Err(left), Err(right)) => left == right,
            _ => false,
        },
{
    if let Ok(candidates) = compared_entries(before, after, before_file, after_file, entries) {
        entries_keep_at_any_depth(
            before,
            after,
            before_file,
            after_file,
            candidates,
            depth,
            other,
            candidates.len(),
        );
    }
}

} // verus!
