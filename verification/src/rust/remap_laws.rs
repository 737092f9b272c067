//! What remains of an analysis when it is moved, or when the functions that
//! were added for entries are taken out.
use crate::model::{AnalysisModel, FactModel, FunctionModel, SymbolModel};
use crate::rust::remap::{
    facts_without, functions_without, generic_entries, has_entry, missing_entries, rerooted,
    rerooted_analysis, rerooted_files, seed_ids, without_seeds,
};
use crate::sets::{added_path_keeps_order, has_place, paths_in_order};
use crate::text::contains;
use vstd::prelude::*;

verus! {

proof fn files_are_moved(
    files: Seq<Seq<char>>,
    from: Seq<char>,
    to: Seq<char>,
    count: int,
    at: int,
)
    requires
        0 <= count <= files.len(),
    ensures
        paths_in_order(rerooted_files(files, from, to, count)),
        0 <= at < count ==> has_place(
            rerooted_files(files, from, to, count),
            rerooted(files[at], from, to),
        ),
    decreases count,
{
    if count > 0 {
        files_are_moved(files, from, to, count - 1, at);
        let before = rerooted_files(files, from, to, count - 1);
        added_path_keeps_order(before, rerooted(files[count - 1], from, to));
    }
}

/// A moved analysis has each function, call, fact and file at its new place,
/// and is otherwise as it was.
pub proof fn everything_is_moved(
    analysis: AnalysisModel,
    from: Seq<char>,
    to: Seq<char>,
    place: int,
    at: int,
)
    ensures
        rerooted_analysis(analysis, from, to).functions.len() == analysis.functions.len(),
        rerooted_analysis(analysis, from, to).facts.len() == analysis.facts.len(),
        rerooted_analysis(analysis, from, to).roots == analysis.roots,
        0 <= place < analysis.functions.len() ==> ({
            let moved = rerooted_analysis(analysis, from, to).functions[place];
            let function = analysis.functions[place];
            &&& moved.id == function.id
            &&& moved.label == function.label
            &&& moved.public == function.public
            &&& moved.span.file == rerooted(function.span.file, from, to)
            &&& moved.span.start_line == function.span.start_line
            &&& moved.calls.len() == function.calls.len()
            &&& 0 <= at < function.calls.len() ==> moved.calls[at].span.file == rerooted(
                function.calls[at].span.file,
                from,
                to,
            ) && moved.calls[at].span.start_line == function.calls[at].span.start_line
                && moved.calls[at].target == function.calls[at].target && moved.calls[at].label
                == function.calls[at].label
        }),
        0 <= place < analysis.facts.len() ==> rerooted_analysis(
            analysis,
            from,
            to,
        ).facts[place].span.file == rerooted(analysis.facts[place].span.file, from, to),
        0 <= place < analysis.source_files.len() ==> has_place(
            rerooted_analysis(analysis, from, to).source_files,
            rerooted(analysis.source_files[place], from, to),
        ),
{
    files_are_moved(
        analysis.source_files,
        from,
        to,
        analysis.source_files.len() as int,
        place,
    );
}

/// Whether some functions hold one that was added for an entry, of an identity.
pub open spec fn is_added(functions: Seq<FunctionModel>, id: SymbolModel) -> bool {
    exists|at: int|
        0 <= at < functions.len() && (#[trigger] functions[at]).id == id && contains(
            functions[at].label.default,
            "__diffkit_seed_"@,
        )
}

proof fn added_ids(functions: Seq<FunctionModel>, count: int, id: SymbolModel)
    requires
        0 <= count <= functions.len(),
    ensures
        seed_ids(functions, count).contains(id) == is_added(functions.take(count), id),
    decreases count,
{
    if count > 0 {
        added_ids(functions, count - 1, id);
        let shorter = functions.take(count - 1);
        let longer = functions.take(count);
        crate::lists::pushed_items(
            seed_ids(functions, count - 1),
            functions[count - 1].id,
            id,
        );
        assert(longer[count - 1] == functions[count - 1]);
        if is_added(shorter, id) {
            let at = choose|at: int|
                0 <= at < shorter.len() && (#[trigger] shorter[at]).id == id && contains(
                    shorter[at].label.default,
                    "__diffkit_seed_"@,
                );
            assert(longer[at] == shorter[at]);
        }
        if is_added(longer, id) {
            let at = choose|at: int|
                0 <= at < longer.len() && (#[trigger] longer[at]).id == id && contains(
                    longer[at].label.default,
                    "__diffkit_seed_"@,
                );
            if at < count - 1 {
                assert(shorter[at] == longer[at]);
            }
        }
    }
}

proof fn other_functions(
    functions: Seq<FunctionModel>,
    ids: Seq<SymbolModel>,
    count: int,
    function: FunctionModel,
)
    requires
        0 <= count <= functions.len(),
    ensures
        functions_without(functions, ids, count).contains(function) == (functions.take(
            count,
        ).contains(function) && !ids.contains(function.id)),
    decreases count,
{
    if count > 0 {
        other_functions(functions, ids, count - 1, function);
        let last = functions[count - 1];
        assert(functions.take(count) =~= functions.take(count - 1).push(last));
        crate::lists::pushed_items(functions.take(count - 1), last, function);
        crate::lists::pushed_items(functions_without(functions, ids, count - 1), last, function);
    }
}

proof fn other_facts(facts: Seq<FactModel>, ids: Seq<SymbolModel>, count: int, fact: FactModel)
    requires
        0 <= count <= facts.len(),
    ensures
        facts_without(facts, ids, count).contains(fact) == (facts.take(count).contains(fact)
            && !ids.contains(fact.subject)),
    decreases count,
{
    if count > 0 {
        other_facts(facts, ids, count - 1, fact);
        let last = facts[count - 1];
        assert(facts.take(count) =~= facts.take(count - 1).push(last));
        crate::lists::pushed_items(facts.take(count - 1), last, fact);
        crate::lists::pushed_items(facts_without(facts, ids, count - 1), last, fact);
    }
}

/// The functions that were added for entries go, with the facts about them;
/// every other function and fact stays.
pub proof fn added_functions_go(analysis: AnalysisModel, function: FunctionModel, fact: FactModel)
    ensures
        without_seeds(analysis).functions.contains(function) == (analysis.functions.contains(
            function,
        ) && !is_added(analysis.functions, function.id)),
        without_seeds(analysis).facts.contains(fact) == (analysis.facts.contains(fact)
            && !is_added(analysis.functions, fact.subject)),
        without_seeds(analysis).source_files == analysis.source_files,
{
    let count = analysis.functions.len() as int;
    let ids = seed_ids(analysis.functions, count);
    assert(analysis.functions.take(count) =~= analysis.functions);
    assert(analysis.facts.take(analysis.facts.len() as int) =~= analysis.facts);
    added_ids(analysis.functions, count, function.id);
    added_ids(analysis.functions, count, fact.subject);
    other_functions(analysis.functions, ids, count, function);
    other_facts(analysis.facts, ids, analysis.facts.len() as int, fact);
}

/// The entries that name instances are those with generic arguments, and the
/// missing ones are those of them that no function answers.
pub proof fn missing_entries_are_named(
    analysis: AnalysisModel,
    entries: Seq<Seq<char>>,
    count: int,
    entry: Seq<char>,
)
    requires
        0 <= count <= entries.len(),
    ensures
        generic_entries(entries, count).contains(entry) == (entries.take(count).contains(entry)
            && entry.contains('<')),
        missing_entries(analysis, entries, count).contains(entry) == (entries.take(count).contains(
            entry,
        ) && entry.contains('<') && !has_entry(analysis, entry)),
    decreases count,
{
    if count > 0 {
        missing_entries_are_named(analysis, entries, count - 1, entry);
        let last = entries[count - 1];
        assert(entries.take(count) =~= entries.take(count - 1).push(last));
        crate::lists::pushed_items(entries.take(count - 1), last, entry);
        crate::lists::pushed_items(generic_entries(entries, count - 1), last, entry);
        crate::lists::pushed_items(missing_entries(analysis, entries, count - 1), last, entry);
    }
}

} // verus!
