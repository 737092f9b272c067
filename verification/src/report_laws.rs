//! What a report is about: the roots of both programs or the entries that were
//! asked for, every file of both, and every call that is left open.
use crate::engine::{
    both_files, entry_symbols, explicit_symbols, in_source_order, root_union, shared,
    sorting_puts_in_order,
};
use crate::entries::{call_lines, diagnostic, function_lines};
use crate::files::FileModel;
use crate::graph::GraphModel;
use crate::model::{
    DispatchResolution, FunctionModel, SiteModel, SymbolModel, TargetModel, UnresolvedReason,
};
use crate::render::{report_parts, report_text};
use crate::sets::{added_path_keeps_order, has_place, paths_in_order, with_path, with_paths};
use crate::shown_laws::{joined_texts_are_shown, shown_within, shows, texts_show_themselves};
use crate::text::joined;
use vstd::prelude::*;

verus! {

proof fn shared_symbols(
    symbols: Seq<SymbolModel>,
    others: Seq<SymbolModel>,
    wanted: bool,
    count: nat,
    symbol: SymbolModel,
)
    requires
        count <= symbols.len(),
    ensures
        shared(symbols, others, wanted, count).contains(symbol) == (symbols.take(
            count as int,
        ).contains(symbol) && others.contains(symbol) == wanted),
    decreases count,
{
    if count > 0 {
        shared_symbols(symbols, others, wanted, (count - 1) as nat, symbol);
        let shorter = symbols.take(count - 1);
        let last = symbols[count - 1];
        assert(symbols.take(count as int) =~= shorter.push(last));
        crate::lists::pushed_items(shorter, last, symbol);
        crate::lists::pushed_items(
            shared(symbols, others, wanted, (count - 1) as nat),
            last,
            symbol,
        );
    }
}

proof fn ordered_symbols(graph: GraphModel, symbols: Seq<SymbolModel>, symbol: SymbolModel)
    ensures
        in_source_order(graph, symbols).contains(symbol) == symbols.contains(symbol),
{
    broadcast use vstd::seq_lib::group_to_multiset_ensures;

    sorting_puts_in_order(graph, symbols, symbols.len());
    assert(symbols.take(symbols.len() as int) =~= symbols);
    let sorted = in_source_order(graph, symbols);
    assert(sorted.to_multiset() == symbols.to_multiset());
    assert(sorted.contains(symbol) <==> sorted.to_multiset().count(symbol) > 0);
    assert(symbols.contains(symbol) <==> symbols.to_multiset().count(symbol) > 0);
}

/// The roots of both programs are compared, those of either as well as those of
/// one alone, and nothing else.
pub proof fn roots_of_both_are_compared(
    before: GraphModel,
    after: GraphModel,
    before_roots: Seq<SymbolModel>,
    after_roots: Seq<SymbolModel>,
    symbol: SymbolModel,
)
    ensures
        root_union(before, after, before_roots, after_roots).contains(symbol) == (
        before_roots.contains(symbol) || after_roots.contains(symbol)),
{
    let both = shared(before_roots, after_roots, true, before_roots.len());
    let gone = shared(before_roots, after_roots, false, before_roots.len());
    let new = shared(after_roots, before_roots, false, after_roots.len());
    shared_symbols(before_roots, after_roots, true, before_roots.len(), symbol);
    shared_symbols(before_roots, after_roots, false, before_roots.len(), symbol);
    shared_symbols(after_roots, before_roots, false, after_roots.len(), symbol);
    assert(before_roots.take(before_roots.len() as int) =~= before_roots);
    assert(after_roots.take(after_roots.len() as int) =~= after_roots);
    ordered_symbols(before, both, symbol);
    ordered_symbols(before, gone, symbol);
    ordered_symbols(after, new, symbol);
    let first = in_source_order(before, both);
    let second = in_source_order(before, gone);
    let third = in_source_order(after, new);
    crate::lists::joint_items(first, second, symbol);
    crate::lists::joint_items(first + second, third, symbol);
}

/// What an entry asks for in either program.
pub open spec fn is_asked_for(
    found: Result<Seq<SymbolModel>, Seq<char>>,
    symbol: SymbolModel,
) -> bool {
    found is Ok && found->Ok_0.contains(symbol)
}

/// Where entries are asked for, every function that one of them means in either
/// program is compared, and each of them means at least one.
pub proof fn entries_asked_for_are_compared(
    before: GraphModel,
    after: GraphModel,
    before_file: Option<FileModel>,
    after_file: Option<FileModel>,
    entries: Seq<Seq<char>>,
    count: nat,
    at: int,
    symbol: SymbolModel,
)
    requires
        0 <= at < count <= entries.len(),
        explicit_symbols(before, after, before_file, after_file, entries, count) is Ok,
    ensures
        is_asked_for(entry_symbols(before, before_file, entries[at]), symbol) || is_asked_for(
            entry_symbols(after, after_file, entries[at]),
            symbol,
        ) ==> explicit_symbols(
            before,
            after,
            before_file,
            after_file,
            entries,
            count,
        )->Ok_0.contains(symbol),
        entry_symbols(before, before_file, entries[at]) is Ok,
        entry_symbols(after, after_file, entries[at]) is Ok,
        entry_symbols(before, before_file, entries[at])->Ok_0.len() + entry_symbols(
            after,
            after_file,
            entries[at],
        )->Ok_0.len() > 0,
    decreases count,
{
    let left = entry_symbols(before, before_file, entries[count - 1])->Ok_0;
    let right = entry_symbols(after, after_file, entries[count - 1])->Ok_0;
    if at < count - 1 {
        entries_asked_for_are_compared(
            before,
            after,
            before_file,
            after_file,
            entries,
            (count - 1) as nat,
            at,
            symbol,
        );
    } else {
        assert(left.to_set().contains(symbol) == left.contains(symbol));
        assert(right.to_set().contains(symbol) == right.contains(symbol));
    }
}

/// Nothing is compared but what some entry asks for.
pub proof fn compared_entries_are_asked_for(
    before: GraphModel,
    after: GraphModel,
    before_file: Option<FileModel>,
    after_file: Option<FileModel>,
    entries: Seq<Seq<char>>,
    count: nat,
    symbol: SymbolModel,
) -> (at: int)
    requires
        count <= entries.len(),
        explicit_symbols(before, after, before_file, after_file, entries, count) is Ok,
        explicit_symbols(before, after, before_file, after_file, entries, count)->Ok_0.contains(
            symbol,
        ),
    ensures
        0 <= at < count,
        is_asked_for(entry_symbols(before, before_file, entries[at]), symbol) || is_asked_for(
            entry_symbols(after, after_file, entries[at]),
            symbol,
        ),
    decreases count,
{
    let left = entry_symbols(before, before_file, entries[count - 1])->Ok_0;
    let right = entry_symbols(after, after_file, entries[count - 1])->Ok_0;
    assert(left.to_set().contains(symbol) == left.contains(symbol));
    assert(right.to_set().contains(symbol) == right.contains(symbol));
    if left.contains(symbol) || right.contains(symbol) {
        count - 1
    } else {
        compared_entries_are_asked_for(
            before,
            after,
            before_file,
            after_file,
            entries,
            (count - 1) as nat,
            symbol,
        )
    }
}

proof fn added_places(paths: Seq<Seq<char>>, added: Seq<Seq<char>>, count: nat, at: int)
    requires
        count <= added.len(),
        paths_in_order(paths),
    ensures
        paths_in_order(with_paths(paths, added, count)),
        forall|other: Seq<char>|
            has_place(paths, other) ==> #[trigger] has_place(
                with_paths(paths, added, count),
                other,
            ),
        0 <= at < count ==> has_place(with_paths(paths, added, count), added[at]),
    decreases count,
{
    if count > 0 {
        added_places(paths, added, (count - 1) as nat, at);
        let before = with_paths(paths, added, (count - 1) as nat);
        added_path_keeps_order(before, added[count - 1]);
        assert(has_place(with_path(before, added[count - 1]), added[count - 1]));
    }
}

/// Every source file of both programs is listed.
pub proof fn files_of_both_are_listed(before: GraphModel, after: GraphModel, at: int)
    ensures
        0 <= at < before.source_files.len() ==> has_place(
            both_files(before, after),
            before.source_files[at],
        ),
        0 <= at < after.source_files.len() ==> has_place(
            both_files(before, after),
            after.source_files[at],
        ),
{
    let none = Seq::<Seq<char>>::empty();
    added_places(none, before.source_files, before.source_files.len(), at);
    let first = with_paths(none, before.source_files, before.source_files.len());
    added_places(first, after.source_files, after.source_files.len(), at);
}

/// Whether a line tells of a call: where it stands, how it is shown, and how
/// much of its targets is known.
pub open spec fn tells_of(line: Seq<char>, call: SiteModel) -> bool {
    &&& shows(line, call.span.file)
    &&& shows(line, call.label.default)
    &&& match call.target {
        TargetModel::Dynamic { resolution, .. } => shows(
            line,
            match resolution {
                DispatchResolution::Complete => "Complete"@,
                DispatchResolution::Partial => "Partial"@,
                DispatchResolution::Unresolved => "Unresolved"@,
            },
        ),
        TargetModel::Indirect { signature, .. } => shows(line, "indirect"@) && (signature is Some
            ==> shows(line, signature->0)),
        _ => true,
    }
}

proof fn lines_of_calls(calls: Seq<SiteModel>, count: nat, at: int)
    requires
        0 <= at < count <= calls.len(),
        diagnostic(calls[at]) is Some,
    ensures
        call_lines(calls, count).contains(diagnostic(calls[at])->0),
    decreases count,
{
    if at < count - 1 {
        lines_of_calls(calls, (count - 1) as nat, at);
    }
}

proof fn lines_of_functions(functions: Seq<FunctionModel>, count: nat, at: int, line: Seq<char>)
    requires
        0 <= at < count <= functions.len(),
        call_lines(functions[at].calls, functions[at].calls.len()).contains(line),
    ensures
        function_lines(functions, count).contains(line),
    decreases count,
{
    if at < count - 1 {
        lines_of_functions(functions, (count - 1) as nat, at, line);
    }
}

proof fn places_are_told(call: SiteModel, known: Seq<char>, rest: Seq<char>)
    ensures
        shows(crate::entries::call_place(call) + known + rest, call.span.file),
        shows(crate::entries::call_place(call) + known + rest, call.label.default),
        shows(crate::entries::call_place(call) + known + rest, known),
{
    let none = Seq::<char>::empty();
    let file = call.span.file;
    let label = call.label.default;
    let numbers = ":"@ + crate::text::decimal(call.span.start_line as nat) + ":"@
        + crate::text::decimal(call.span.start_column as nat) + ": "@;
    let start = crate::entries::call_place(call);
    assert(start =~= file + numbers + label + ": "@);
    let line = start + known + rest;
    texts_show_themselves(known);
    shown_within(start, known, rest, known);
    texts_show_themselves(file);
    shown_within(none, file, numbers + label + ": "@, file);
    assert(none + file + (numbers + label + ": "@) =~= start);
    texts_show_themselves(label);
    shown_within(file + numbers, label, ": "@, label);
    shown_within(none, start, known + rest, file);
    shown_within(none, start, known + rest, label);
    assert(none + start + (known + rest) =~= line);
}

proof fn signatures_are_told(
    call: SiteModel,
    signature: Option<Seq<char>>,
    reason: UnresolvedReason,
)
    requires
        call.target == (TargetModel::Indirect { signature, reason }),
    ensures
        tells_of(diagnostic(call)->0, call),
{
    let line = diagnostic(call)->0;
    let start = crate::entries::call_place(call);
    let why = ", unresolved="@ + crate::model::reason_text(reason);
    match signature {
        Some(signature) => {
            let rest = " ("@ + signature + ")"@ + why;
            assert(line =~= start + "indirect"@ + rest);
            places_are_told(call, "indirect"@, rest);
            texts_show_themselves(signature);
            shown_within(" ("@, signature, ")"@ + why, signature);
            assert(" ("@ + signature + (")"@ + why) =~= rest);
            shown_within(start + "indirect"@, rest, Seq::empty(), signature);
            assert(start + "indirect"@ + rest + Seq::<char>::empty() =~= line);
        },
        None => {
            assert(line =~= start + "indirect"@ + why);
            places_are_told(call, "indirect"@, why);
        },
    }
}

/// Every call through a value, and every call of an unknown target, has a line
/// among the diagnostics that tells of it.
pub proof fn open_calls_are_told(functions: Seq<FunctionModel>, place: int, at: int) -> (line: Seq<
    char,
>)
    requires
        0 <= place < functions.len(),
        0 <= at < functions[place].calls.len(),
        functions[place].calls[at].target is Dynamic
            || functions[place].calls[at].target is Indirect,
    ensures
        function_lines(functions, functions.len()).contains(line),
        tells_of(line, functions[place].calls[at]),
{
    let call = functions[place].calls[at];
    let line = diagnostic(call)->0;
    lines_of_calls(functions[place].calls, functions[place].calls.len(), at);
    lines_of_functions(functions, functions.len(), place, line);
    match call.target {
        TargetModel::Dynamic { resolution, evidence, unresolved_reasons, .. } => {
            let known = crate::entries::resolution_text(resolution);
            let reasons = joined(crate::entries::reason_texts(unresolved_reasons), ", "@);
            let tail = if reasons.len() == 0 {
                Seq::<char>::empty()
            } else {
                ", unresolved="@ + reasons
            };
            let rest = ", evidence="@ + crate::model::evidence_text(evidence) + tail;
            places_are_told(call, known, rest);
            assert(line =~= crate::entries::call_place(call) + known + rest);
        },
        TargetModel::Indirect { signature, reason } => {
            signatures_are_told(call, signature, reason);
        },
        _ => {},
    }
    line
}

proof fn parts_of_reports(
    head: Seq<Seq<char>>,
    trees: Seq<Seq<char>>,
    count: nat,
    at: int,
) -> (place: int)
    requires
        0 <= at < count <= trees.len(),
    ensures
        0 <= place < report_parts(head, trees, count).len(),
        report_parts(head, trees, count)[place] == trees[at],
    decreases count,
{
    let before = report_parts(head, trees, (count - 1) as nat);
    if at < count - 1 {
        parts_of_reports(head, trees, (count - 1) as nat, at)
    } else if count > 1 {
        before.len() as int + 1
    } else {
        before.len() as int
    }
}

proof fn heads_of_reports(head: Seq<Seq<char>>, trees: Seq<Seq<char>>, count: nat)
    requires
        count <= trees.len(),
    ensures
        report_parts(head, trees, count).len() >= head.len(),
        report_parts(head, trees, count).take(head.len() as int) == head,
    decreases count,
{
    if count > 0 {
        heads_of_reports(head, trees, (count - 1) as nat);
        let before = report_parts(head, trees, (count - 1) as nat);
        assert forall|at: int| 0 <= at < head.len() implies #[trigger] report_parts(
            head,
            trees,
            count,
        )[at] == head[at] by {
            assert(before.take(head.len() as int)[at] == head[at]);
        }
        assert(report_parts(head, trees, count).take(head.len() as int) =~= head);
    } else {
        assert(head.take(head.len() as int) =~= head);
    }
}

/// A rendered report shows its head and every tree, and its message where it
/// has one.
pub proof fn reports_show_every_tree(
    head: Seq<Seq<char>>,
    message: Seq<char>,
    trees: Seq<Seq<char>>,
    at: int,
)
    ensures
        0 <= at < trees.len() ==> shows(report_text(head, None, trees), trees[at]),
        0 <= at < head.len() ==> shows(report_text(head, None, trees), head[at]),
        0 <= at < head.len() ==> shows(report_text(head, Some(message), trees), head[at]),
        shows(report_text(head, Some(message), trees), message),
{
    let parts = report_parts(head, trees, trees.len());
    if 0 <= at < trees.len() {
        let place = parts_of_reports(head, trees, trees.len(), at);
        joined_texts_are_shown(parts, "\n"@, place);
    }
    if 0 <= at < head.len() {
        heads_of_reports(head, trees, trees.len());
        assert(parts.take(head.len() as int)[at] == head[at]);
        joined_texts_are_shown(parts, "\n"@, at);
        joined_texts_are_shown(head.push(message), "\n"@, at);
    }
    joined_texts_are_shown(head.push(message), "\n"@, head.len() as int);
}

} // verus!
