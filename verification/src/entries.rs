//! What a call graph answers to questions by name and by file.
use crate::files::{leads_to, FileModel, SourceFile};
use crate::graph::{function_ids, in_order, GraphModel, ProgramGraph};
use crate::model::{
    evidence_text, fact_models, function_models, path_models, reason_text, same_span, short_name, symbol_models, symbol_parts,
    symbol_text, CallSite, CallTarget, DispatchResolution, FunctionInfo, FunctionModel,
    LanguageFact, SiteModel, SymbolId, SymbolModel, TargetModel, UnresolvedReason,
};
use crate::names::{
    aliases, callable_aliases, callable_part, callable_prefix, strip_context_suffix,
    strip_generic_arguments, without_context, without_generics,
};
use crate::paths::SourcePath;
use crate::sets::{insert_text, symbols_in_order, texts_in_order};
use crate::text::{
    concat_texts, contains, contains_text, decimal, decimal_text, ends_with, ends_with_text,
    join_texts, joined, replace_text, replaced, same_text, texts,
};
use vstd::prelude::*;

verus! {

/// The symbols of those of the first `count` functions whose places are kept.
pub open spec fn ids_where(
    functions: Seq<FunctionModel>,
    keep: Set<int>,
    count: nat,
) -> Seq<SymbolModel>
    decreases count,
{
    if count == 0 {
        Seq::empty()
    } else {
        let before = ids_where(functions, keep, (count - 1) as nat);
        if keep.contains(count - 1) {
            before.push(functions[count - 1].id)
        } else {
            before
        }
    }
}

/// The symbols of the functions whose places are kept, in order.
pub open spec fn kept_ids(graph: GraphModel, keep: Set<int>) -> Seq<SymbolModel> {
    ids_where(graph.functions, keep, graph.functions.len())
}

proof fn ids_where_only(functions: Seq<FunctionModel>, keep: Set<int>, count: nat)
    requires
        count <= functions.len(),
    ensures
        forall|id: SymbolModel| #[trigger] ids_where(functions, keep, count).contains(id) <==> (
        exists|k: int|
            0 <= k < count && keep.contains(k) && (#[trigger] functions[k]).id == id),
    decreases count,
{
    if count > 0 {
        ids_where_only(functions, keep, (count - 1) as nat);
        let before = ids_where(functions, keep, (count - 1) as nat);
        let all = ids_where(functions, keep, count);
        assert forall|id: SymbolModel| #[trigger] all.contains(id) <==> (exists|k: int|
            0 <= k < count && keep.contains(k) && (#[trigger] functions[k]).id == id) by {
            if all.contains(id) && !before.contains(id) {
                let k = choose|k: int| 0 <= k < all.len() && all[k] == id;
                assert(k == before.len());
                assert(functions[count - 1].id == id);
            }
            if before.contains(id) {
                let k = choose|k: int| 0 <= k < before.len() && before[k] == id;
                assert(all[k] == id);
            }
            if exists|k: int|
                0 <= k < count && keep.contains(k) && (#[trigger] functions[k]).id == id {
                let k = choose|k: int|
                    0 <= k < count && keep.contains(k) && (#[trigger] functions[k]).id == id;
                if k == count - 1 {
                    assert(all[before.len() as int] == id);
                } else {
                    assert(before.contains(id));
                    let m = choose|m: int| 0 <= m < before.len() && before[m] == id;
                    assert(all[m] == id);
                }
            }
        }
    }
}

/// Kept symbols stand in order, and are the symbols of the kept functions.
pub proof fn kept_ids_are_in_order(graph: GraphModel, keep: Set<int>, count: nat)
    requires
        in_order(graph),
        count <= graph.functions.len(),
    ensures
        symbols_in_order(ids_where(graph.functions, keep, count)),
        forall|id: SymbolModel| #[trigger] ids_where(graph.functions, keep, count).contains(id) <==> (
        exists|k: int|
            0 <= k < count && keep.contains(k) && (#[trigger] graph.functions[k]).id == id),
    decreases count,
{
    ids_where_only(graph.functions, keep, count);
    if count > 0 {
        kept_ids_are_in_order(graph, keep, (count - 1) as nat);
        let before = ids_where(graph.functions, keep, (count - 1) as nat);
        let all = ids_where(graph.functions, keep, count);
        let ids = function_ids(graph.functions);
        if keep.contains(count - 1) {
            assert forall|i: int, j: int| 0 <= i < j < all.len() implies crate::model::symbol_less(
                #[trigger] all[i],
                #[trigger] all[j],
            ) by {
                if j == before.len() {
                    assert(before.contains(before[i]));
                    let k = choose|k: int|
                        0 <= k < count - 1 && keep.contains(k) && (
                        #[trigger] graph.functions[k]).id == before[i];
                    assert(ids[k] == before[i]);
                    assert(ids[count - 1] == all[j]);
                } else {
                    assert(before[i] == all[i]);
                    assert(before[j] == all[j]);
                }
            }
        }
    }
}

/// The places of the functions that are public.
pub open spec fn public_places(graph: GraphModel) -> Set<int> {
    Set::new(|k: int| 0 <= k < graph.functions.len() && graph.functions[k].public)
}

/// The places of the functions that stand in a file.
pub open spec fn places_in_file(graph: GraphModel, file: FileModel) -> Set<int> {
    Set::new(
        |k: int| 0 <= k < graph.functions.len() && leads_to(file, graph.functions[k].span.file),
    )
}

/// Whether a name that a function goes by is the one that is asked for.
pub open spec fn alias_answers(
    alias: Seq<char>,
    entry: Seq<char>,
    normalized: Seq<char>,
) -> bool {
    alias == entry || alias == normalized || ends_with(alias, "::"@ + normalized)
}

/// Whether any of some names is the one that is asked for.
pub open spec fn any_alias_answers(
    names: Seq<Seq<char>>,
    entry: Seq<char>,
    normalized: Seq<char>,
) -> bool {
    exists|k: int| 0 <= k < names.len() && alias_answers(#[trigger] names[k], entry, normalized)
}

/// Whether a function is asked for by `entry`: by its symbol, its name with or
/// without a container, the end of its path, what its label shows before the
/// arguments, or, where `entry` has no generic arguments, by one of the names
/// that it goes by without them.
pub open spec fn answers_to(
    id: SymbolModel,
    label: Seq<char>,
    entry: Seq<char>,
) -> bool {
    let normalized = replaced(entry, "."@, "::"@);
    let qualified = joined(symbol_parts(id), "::"@);
    let shown = callable_part(label);
    ||| symbol_text(id) == entry
    ||| short_name(id) == entry
    ||| id.name == entry
    ||| qualified == normalized
    ||| ends_with(qualified, "::"@ + normalized)
    ||| shown == entry
    ||| shown == normalized
    ||| (!contains(normalized, "<"@) && (any_alias_answers(
        aliases(without_context(qualified)),
        entry,
        normalized,
    ) || any_alias_answers(aliases(without_context(id.name)), entry, normalized)
        || any_alias_answers(aliases(shown), entry, normalized)))
}

/// The places of the functions that are asked for by `entry`.
pub open spec fn entry_places(graph: GraphModel, entry: Seq<char>) -> Set<int> {
    Set::new(
        |k: int|
            0 <= k < graph.functions.len() && answers_to(
                graph.functions[k].id,
                graph.functions[k].label.default,
                entry,
            ),
    )
}

/// Whether two functions are one source function in two call contexts.
pub open spec fn same_source(left: FunctionModel, right: FunctionModel) -> bool {
    without_generics(callable_part(left.label.default)) == without_generics(
        callable_part(right.label.default),
    ) && same_span(left.span, right.span)
}

/// Whether all kept functions are one source function.
pub open spec fn one_source(graph: GraphModel, keep: Set<int>) -> bool {
    forall|i: int, j: int|
        #![trigger keep.contains(i), keep.contains(j)]
        keep.contains(i) && keep.contains(j) ==> same_source(
            graph.functions[i],
            graph.functions[j],
        )
}

/// The texts of a list of symbols.
pub open spec fn symbol_texts(symbols: Seq<SymbolModel>) -> Seq<Seq<char>> {
    symbols.map_values(|symbol: SymbolModel| symbol_text(symbol))
}

/// What is said of an entry that more than one function is asked for by.
pub open spec fn entry_error(
    entry: Seq<char>,
    problem: Seq<char>,
    symbols: Seq<SymbolModel>,
) -> Seq<char> {
    "entry `"@ + entry + problem + joined(symbol_texts(symbols), ", "@)
}

/// What an entry resolves to: all functions that it asks for, where they are
/// one source function.
pub open spec fn resolved_entries(graph: GraphModel, entry: Seq<char>) -> Result<
    Seq<SymbolModel>,
    Seq<char>,
> {
    let keep = entry_places(graph, entry);
    if one_source(graph, keep) {
        Ok(kept_ids(graph, keep))
    } else {
        Err(entry_error(entry, "` is ambiguous: "@, kept_ids(graph, keep)))
    }
}

/// The models of a result.
pub open spec fn entries_result(result: Result<Vec<SymbolId>, String>) -> Result<
    Seq<SymbolModel>,
    Seq<char>,
> {
    match result {
        Ok(symbols) => Ok(symbol_models(symbols@)),
        Err(message) => Err(message@),
    }
}

fn alias_matches(alias: &str, entry: &str, normalized: &str) -> (result: bool)
    ensures
        result == alias_answers(alias@, entry@, normalized@),
{
    same_text(alias, entry) || same_text(alias, normalized) || ends_with_text(
        alias,
        concat_texts("::", normalized).as_str(),
    )
}

fn any_alias_matches(names: &Vec<String>, entry: &str, normalized: &str) -> (result: bool)
    ensures
        result == any_alias_answers(texts(names@), entry@, normalized@),
{
    let mut index: usize = 0;
    while index < names.len()
        invariant
            index <= names@.len(),
            forall|k: int|
                0 <= k < index ==> !alias_answers(
                    #[trigger] texts(names@)[k],
                    entry@,
                    normalized@,
                ),
        decreases names@.len() - index,
    {
        assert(texts(names@)[index as int] == names@[index as int]@);
        if alias_matches(names[index].as_str(), entry, normalized) {
            return true;
        }
        index += 1;
    }
    false
}

fn entry_matches(function: &FunctionInfo, entry: &str) -> (result: bool)
    ensures
        result == answers_to(function.id@, function.label.default@, entry@),
{
    proof {
        reveal_strlit(".");
    }
    let normalized = replace_text(entry, ".", "::");
    let qualified = join_texts(&function.id.owned_parts(), "::");
    let shown = callable_prefix(function.label.default.as_str());
    if same_text(function.id.to_text().as_str(), entry) || same_text(
        function.id.short_name().as_str(),
        entry,
    ) || same_text(function.id.name.as_str(), entry) || same_text(
        qualified.as_str(),
        normalized.as_str(),
    ) || ends_with_text(
        qualified.as_str(),
        concat_texts("::", normalized.as_str()).as_str(),
    ) || same_text(shown.as_str(), entry) || same_text(shown.as_str(), normalized.as_str()) {
        return true;
    }
    if contains_text(normalized.as_str(), "<") {
        return false;
    }
    let base = strip_context_suffix(qualified.as_str());
    let name = strip_context_suffix(function.id.name.as_str());
    any_alias_matches(&callable_aliases(base.as_str()), entry, normalized.as_str())
        || any_alias_matches(&callable_aliases(name.as_str()), entry, normalized.as_str())
        || any_alias_matches(&callable_aliases(shown.as_str()), entry, normalized.as_str())
}

/// The texts of some symbols, joined by commas.
fn list_symbols(symbols: &Vec<SymbolId>) -> (result: String)
    ensures
        result@ == joined(symbol_texts(symbol_models(symbols@)), ", "@),
{
    let mut parts: Vec<String> = Vec::new();
    let mut index: usize = 0;
    while index < symbols.len()
        invariant
            index <= symbols@.len(),
            parts@.len() == index,
            forall|k: int| 0 <= k < index ==> (#[trigger] parts@[k])@ == symbol_text(symbols@[k]@),
        decreases symbols@.len() - index,
    {
        parts.push(symbols[index].to_text());
        index += 1;
    }
    proof {
        assert(texts(parts@) =~= symbol_texts(symbol_models(symbols@)));
    }
    join_texts(&parts, ", ")
}

fn describe_entry(entry: &str, problem: &str, symbols: &Vec<SymbolId>) -> (result: String)
    ensures
        result@ == entry_error(entry@, problem@, symbol_models(symbols@)),
{
    let mut result = concat_texts("entry `", entry);
    result.append(problem);
    result.append(list_symbols(symbols).as_str());
    result
}

/// How a resolution is written.
pub open spec fn resolution_text(resolution: DispatchResolution) -> Seq<char> {
    match resolution {
        DispatchResolution::Complete => "Complete"@,
        DispatchResolution::Partial => "Partial"@,
        DispatchResolution::Unresolved => "Unresolved"@,
    }
}

/// The texts of a list of reasons.
pub open spec fn reason_texts(reasons: Seq<UnresolvedReason>) -> Seq<Seq<char>> {
    reasons.map_values(|reason: UnresolvedReason| reason_text(reason))
}

/// Where a call stands and what it shows.
pub open spec fn call_place(call: SiteModel) -> Seq<char> {
    call.span.file + ":"@ + decimal(call.span.start_line as nat) + ":"@ + decimal(
        call.span.start_column as nat,
    ) + ": "@ + call.label.default + ": "@
}

/// What there is to say of how a call is resolved. Calls with one target, in
/// or outside of the program, need no explanation.
pub open spec fn diagnostic(call: SiteModel) -> Option<Seq<char>> {
    match call.target {
        TargetModel::Dynamic { resolution, evidence, unresolved_reasons, .. } => {
            let reasons = joined(reason_texts(unresolved_reasons), ", "@);
            let tail = if reasons.len() == 0 {
                Seq::<char>::empty()
            } else {
                ", unresolved="@ + reasons
            };
            Some(
                call_place(call) + resolution_text(resolution) + ", evidence="@ + evidence_text(
                    evidence,
                ) + tail,
            )
        },
        TargetModel::Indirect { signature, reason } => {
            let shown = match signature {
                Some(signature) => " ("@ + signature + ")"@,
                None => Seq::empty(),
            };
            Some(
                call_place(call) + "indirect"@ + shown + ", unresolved="@ + reason_text(reason),
            )
        },
        _ => None,
    }
}

/// What there is to say of the first `count` calls.
pub open spec fn call_lines(calls: Seq<SiteModel>, count: nat) -> Set<Seq<char>>
    decreases count,
{
    if count == 0 {
        Set::empty()
    } else {
        let before = call_lines(calls, (count - 1) as nat);
        match diagnostic(calls[count - 1]) {
            Some(line) => before.insert(line),
            None => before,
        }
    }
}

/// What there is to say of the calls of the first `count` functions.
pub open spec fn function_lines(functions: Seq<FunctionModel>, count: nat) -> Set<Seq<char>>
    decreases count,
{
    if count == 0 {
        Set::empty()
    } else {
        let calls = functions[count - 1].calls;
        function_lines(functions, (count - 1) as nat).union(call_lines(calls, calls.len()))
    }
}

fn place_text(call: &CallSite) -> (result: String)
    ensures
        result@ == call_place(call@),
{
    let mut result = call.span.file.text.clone();
    result.append(":");
    result.append(decimal_text(call.span.start_line).as_str());
    result.append(":");
    result.append(decimal_text(call.span.start_column).as_str());
    result.append(": ");
    result.append(call.label.default.as_str());
    result.append(": ");
    result
}

fn join_reasons(reasons: &Vec<UnresolvedReason>) -> (result: String)
    ensures
        result@ == joined(reason_texts(reasons@), ", "@),
{
    let mut parts: Vec<String> = Vec::new();
    let mut index: usize = 0;
    while index < reasons.len()
        invariant
            index <= reasons@.len(),
            parts@.len() == index,
            forall|k: int| 0 <= k < index ==> (#[trigger] parts@[k])@ == reason_text(reasons@[k]),
        decreases reasons@.len() - index,
    {
        parts.push(reasons[index].to_text());
        index += 1;
    }
    proof {
        assert(texts(parts@) =~= reason_texts(reasons@));
    }
    join_texts(&parts, ", ")
}

fn describe_call(call: &CallSite) -> (result: Option<String>)
    ensures
        crate::text::optional(result) == diagnostic(call@),
{
    match &call.target {
        CallTarget::Dynamic { resolution, evidence, unresolved_reasons, .. } => {
            let reasons = join_reasons(unresolved_reasons);
            let mut tail = String::new();
            if reasons.as_str().is_empty() {
            } else {
                tail.append(", unresolved=");
                tail.append(reasons.as_str());
                proof {
                    assert(tail@ =~= ", unresolved="@ + reasons@);
                }
            }
            let mut line = place_text(call);
            match resolution {
                DispatchResolution::Complete => line.append("Complete"),
                DispatchResolution::Partial => line.append("Partial"),
                DispatchResolution::Unresolved => line.append("Unresolved"),
            }
            line.append(", evidence=");
            line.append(evidence.to_text().as_str());
            line.append(tail.as_str());
            Some(line)
        },
        CallTarget::Indirect { signature, reason } => {
            let mut line = place_text(call);
            line.append("indirect");
            let mut shown = String::new();
            if let Some(signature) = signature {
                shown = concat_texts(" (", signature.as_str());
                shown.append(")");
            }
            line.append(shown.as_str());
            line.append(", unresolved=");
            line.append(reason.to_text().as_str());
            Some(line)
        },
        CallTarget::Direct(_) => None,
        CallTarget::Unresolved => None,
    }
}

impl ProgramGraph {
    /// The functions, in the order of their symbols.
    pub fn functions(&self) -> (result: &Vec<FunctionInfo>)
        ensures
            function_models(result@) == self@.functions,
    {
        &self.functions
    }

    pub fn facts(&self) -> (result: &Vec<LanguageFact>)
        ensures
            fact_models(result@) == self@.facts,
    {
        &self.facts
    }

    /// The analyzed files, in order.
    pub fn source_files(&self) -> (result: Vec<SourcePath>)
        ensures
            path_models(result@) == self@.source_files,
    {
        let mut result: Vec<SourcePath> = Vec::new();
        let mut index: usize = 0;
        while index < self.source_files.len()
            invariant
                index <= self.source_files@.len(),
                result@.len() == index,
                forall|k: int|
                    0 <= k < index ==> (#[trigger] result@[k])@ == self.source_files@[k]@,
            decreases self.source_files@.len() - index,
        {
            result.push(self.source_files[index].clone());
            index += 1;
        }
        proof {
            assert(path_models(result@) =~= self@.source_files);
        }
        result
    }

    /// What there is to say of how calls are resolved, in order and each line
    /// once.
    pub fn resolution_diagnostics(&self) -> (result: Vec<String>)
        ensures
            texts_in_order(texts(result@)),
            texts(result@).to_set() == function_lines(self@.functions, self@.functions.len()),
    {
        let mut result: Vec<String> = Vec::new();
        let mut index: usize = 0;
        proof {
            assert(texts(result@).to_set() =~= Set::<Seq<char>>::empty());
        }
        while index < self.functions.len()
            invariant
                index <= self.functions@.len(),
                texts_in_order(texts(result@)),
                texts(result@).to_set() == function_lines(self@.functions, index as nat),
            decreases self.functions@.len() - index,
        {
            let function = &self.functions[index];
            let ghost calls = self@.functions[index as int].calls;
            let ghost before = texts(result@).to_set();
            let mut k: usize = 0;
            proof {
                assert(before.union(call_lines(calls, 0)) =~= before);
            }
            while k < function.calls.len()
                invariant
                    k <= function.calls@.len(),
                    calls == crate::model::site_models(function.calls@),
                    texts_in_order(texts(result@)),
                    texts(result@).to_set() == before.union(call_lines(calls, k as nat)),
                decreases function.calls@.len() - k,
            {
                assert(calls[k as int] == function.calls@[k as int]@);
                if let Some(line) = describe_call(&function.calls[k]) {
                    let ghost lines = call_lines(calls, k as nat);
                    let ghost added = line@;
                    insert_text(&mut result, line);
                    proof {
                        assert(before.union(lines).insert(added) =~= before.union(
                            lines.insert(added),
                        ));
                    }
                }
                k += 1;
            }
            index += 1;
        }
        result
    }

    /// Whether a file was analyzed.
    pub fn analyzes_file(&self, file: &SourceFile) -> (result: bool)
        ensures
            result == exists|k: int|
                0 <= k < self@.source_files.len() && leads_to(
                    file@,
                    #[trigger] self@.source_files[k],
                ),
    {
        let mut index: usize = 0;
        while index < self.source_files.len()
            invariant
                index <= self.source_files@.len(),
                forall|k: int|
                    0 <= k < index ==> !leads_to(file@, #[trigger] self@.source_files[k]),
            decreases self.source_files@.len() - index,
        {
            assert(self@.source_files[index as int] == self.source_files@[index as int]@);
            if file.same_file(&self.source_files[index]) {
                return true;
            }
            index += 1;
        }
        false
    }

    /// Whether any function stands in a file.
    pub fn has_functions_in_file(&self, file: &SourceFile) -> (result: bool)
        ensures
            result == exists|k: int|
                0 <= k < self@.functions.len() && leads_to(
                    file@,
                    (#[trigger] self@.functions[k]).span.file,
                ),
    {
        let mut index: usize = 0;
        while index < self.functions.len()
            invariant
                index <= self.functions@.len(),
                forall|k: int|
                    0 <= k < index ==> !leads_to(file@, (#[trigger] self@.functions[k]).span.file),
            decreases self.functions@.len() - index,
        {
            assert(self@.functions[index as int] == self.functions@[index as int]@);
            if file.same_file(&self.functions[index].span.file) {
                return true;
            }
            index += 1;
        }
        false
    }

    /// The symbols of the functions that are flagged, in order.
    pub fn flagged_symbols(&self, flags: &Vec<bool>) -> (result: Vec<SymbolId>)
        requires
            flags@.len() == self@.functions.len(),
        ensures
            symbol_models(result@) == kept_ids(self@, flagged(flags@)),
    {
        let mut result: Vec<SymbolId> = Vec::new();
        let mut index: usize = 0;
        proof {
            assert(symbol_models(result@) =~= Seq::<SymbolModel>::empty());
        }
        while index < self.functions.len()
            invariant
                index <= self.functions@.len(),
                flags@.len() == self.functions@.len(),
                symbol_models(result@) == ids_where(
                    self@.functions,
                    flagged(flags@),
                    index as nat,
                ),
            decreases self.functions@.len() - index,
        {
            assert(self@.functions[index as int] == self.functions@[index as int]@);
            if flags[index] {
                let ghost before = symbol_models(result@);
                result.push(self.functions[index].id.clone());
                proof {
                    assert(symbol_models(result@) =~= before.push(
                        self.functions@[index as int].id@,
                    ));
                }
            }
            index += 1;
        }
        result
    }

    /// The symbols of the public functions, in order.
    pub fn public_symbols(&self) -> (result: Vec<SymbolId>)
        ensures
            symbol_models(result@) == kept_ids(self@, public_places(self@)),
    {
        let mut flags: Vec<bool> = Vec::new();
        let mut index: usize = 0;
        while index < self.functions.len()
            invariant
                index <= self.functions@.len(),
                flags@.len() == index,
                forall|k: int|
                    0 <= k < index ==> (#[trigger] flags@[k]) == self.functions@[k].public,
            decreases self.functions@.len() - index,
        {
            flags.push(self.functions[index].public);
            index += 1;
        }
        proof {
            assert(flagged(flags@) =~= public_places(self@));
        }
        self.flagged_symbols(&flags)
    }

    /// Which functions `entry` asks for, and whether they are one source
    /// function.
    #[verifier::rlimit(30)]
    fn entry_flags(&self, entry: &str) -> (result: (Vec<bool>, bool))
        ensures
            result.0@.len() == self.functions@.len(),
            flagged(result.0@) == entry_places(self@, entry@),
            result.1 == one_source(self@, entry_places(self@, entry@)),
    {
        let mut flags: Vec<bool> = Vec::new();
        let mut first: Option<usize> = None;
        let mut single_source = true;
        let mut index: usize = 0;
        while index < self.functions.len()
            invariant
                index <= self.functions@.len(),
                flags@.len() == index,
                forall|k: int|
                    0 <= k < index ==> (#[trigger] flags@[k]) == answers_to(
                        self@.functions[k].id,
                        self@.functions[k].label.default,
                        entry@,
                    ),
                match first {
                    Some(found) => found < index && flags@[found as int] && single_source == (
                    forall|k: int|
                        0 <= k < index && #[trigger] flags@[k] ==> same_source(
                            self@.functions[found as int],
                            self@.functions[k],
                        )),
                    None => single_source && forall|k: int| 0 <= k < index ==> !#[trigger] flags@[k],
                },
            decreases self.functions@.len() - index,
        {
            assert(self@.functions[index as int] == self.functions@[index as int]@);
            let function = &self.functions[index];
            let matched = entry_matches(function, entry);
            let ghost flags_before = flags@;
            let ghost first_before = first;
            let ghost single_before = single_source;
            if matched {
                match first {
                    Some(found) => {
                        assert(self@.functions[found as int] == self.functions@[found as int]@);
                        if !is_same_source(&self.functions[found], function) {
                            single_source = false;
                        }
                    },
                    None => {
                        first = Some(index);
                    },
                }
            }
            flags.push(matched);
            proof {
                assert(flags@[index as int] == matched);
                assert forall|k: int| 0 <= k < index implies (#[trigger] flags@[k])
                    == flags_before[k] by {}
                if !single_before {
                    let found = first_before->0 as int;
                    let other = choose|k: int|
                        0 <= k < index && #[trigger] flags_before[k] && !same_source(
                            self@.functions[found],
                            self@.functions[k],
                        );
                    assert(flags@[other]);
                }
            }
            index += 1;
        }
        let ghost keep = flagged(flags@);
        proof {
            assert(keep =~= entry_places(self@, entry@));
            if single_source {
                assert forall|i: int, j: int|
                    #![trigger keep.contains(i), keep.contains(j)]
                    keep.contains(i) && keep.contains(j) implies same_source(
                    self@.functions[i],
                    self@.functions[j],
                ) by {
                    let found = first->0 as int;
                    assert(flags@[i] && flags@[j]);
                }
                assert(one_source(self@, keep));
            } else {
                let found = first->0 as int;
                let other = choose|k: int|
                    0 <= k < flags@.len() && #[trigger] flags@[k] && !same_source(
                        self@.functions[found],
                        self@.functions[k],
                    );
                assert(keep.contains(found) && keep.contains(other));
                assert(!one_source(self@, keep));
            }
        }
        (flags, single_source)
    }

    /// All functions that `entry` asks for, where they are one source
    /// function in several call contexts. Otherwise a name that several
    /// functions answer to is an error.
    pub fn resolve_entries(&self, entry: &str) -> (result: Result<Vec<SymbolId>, String>)
        ensures
            entries_result(result) == resolved_entries(self@, entry@),
    {
        let (flags, single_source) = self.entry_flags(entry);
        let matches = self.flagged_symbols(&flags);
        if single_source {
            Ok(matches)
        } else {
            Err(describe_entry(entry, "` is ambiguous: ", &matches))
        }
    }

    /// The functions in `file` that `entry` asks for. A name that is ambiguous
    /// in the whole program stays an error.
    pub fn resolve_entries_in_file(&self, entry: &str, file: &SourceFile) -> (result: Result<
        Vec<SymbolId>,
        String,
    >)
        ensures
            entries_result(result) == resolved_entries_in_file(self@, entry@, file@),
    {
        let (mut flags, single_source) = self.entry_flags(entry);
        if !single_source {
            let matches = self.flagged_symbols(&flags);
            return Err(describe_entry(entry, "` is ambiguous: ", &matches));
        }
        let ghost asked = flags@;
        let mut index: usize = 0;
        while index < self.functions.len()
            invariant
                index <= self.functions@.len(),
                flags@.len() == self.functions@.len(),
                asked.len() == flags@.len(),
                forall|k: int|
                    0 <= k < index ==> (#[trigger] flags@[k]) == (asked[k] && leads_to(
                        file@,
                        self@.functions[k].span.file,
                    )),
                forall|k: int| index <= k < asked.len() ==> (#[trigger] flags@[k]) == asked[k],
            decreases self.functions@.len() - index,
        {
            assert(self@.functions[index as int] == self.functions@[index as int]@);
            let inside = file.same_file(&self.functions[index].span.file);
            let kept = flags[index] && inside;
            flags.set(index, kept);
            index += 1;
        }
        proof {
            assert(flagged(flags@) =~= flagged(asked).intersect(places_in_file(self@, file@)));
        }
        Ok(self.flagged_symbols(&flags))
    }

    /// The one function that `entry` asks for, where there is one.
    pub fn resolve_entry(&self, entry: &str) -> (result: Result<Option<SymbolId>, String>)
        ensures
            match result {
                Ok(symbol) => resolved_entry(self@, entry@) == Ok::<_, Seq<char>>(
                    crate::graph::optional_symbol(symbol),
                ),
                Err(message) => resolved_entry(self@, entry@) == Err::<Option<SymbolModel>, _>(
                    message@,
                ),
            },
    {
        let mut matches = match self.resolve_entries(entry) {
            Ok(matches) => matches,
            Err(message) => {
                return Err(message);
            },
        };
        if matches.len() == 0 {
            return Ok(None);
        }
        if matches.len() == 1 {
            proof {
                assert(symbol_models(matches@)[0] == matches@[0]@);
            }
            return Ok(matches.pop());
        }
        Err(describe_entry(entry, "` resolves to multiple call contexts: ", &matches))
    }
}

/// What an entry resolves to in one file.
pub open spec fn resolved_entries_in_file(
    graph: GraphModel,
    entry: Seq<char>,
    file: FileModel,
) -> Result<Seq<SymbolModel>, Seq<char>> {
    match resolved_entries(graph, entry) {
        Ok(_) => Ok(
            kept_ids(graph, entry_places(graph, entry).intersect(places_in_file(graph, file))),
        ),
        Err(message) => Err(message),
    }
}

/// The one function that an entry resolves to.
pub open spec fn resolved_entry(graph: GraphModel, entry: Seq<char>) -> Result<
    Option<SymbolModel>,
    Seq<char>,
> {
    match resolved_entries(graph, entry) {
        Err(message) => Err(message),
        Ok(symbols) => if symbols.len() == 0 {
            Ok(None)
        } else if symbols.len() == 1 {
            Ok(Some(symbols[0]))
        } else {
            Err(entry_error(entry, "` resolves to multiple call contexts: "@, symbols))
        },
    }
}

/// An entry resolves to a function only if that function is asked for by it.
pub proof fn entries_resolve_to_what_they_ask_for(
    graph: GraphModel,
    entry: Seq<char>,
    symbol: SymbolModel,
)
    requires
        in_order(graph),
        resolved_entries(graph, entry) matches Ok(symbols) && symbols.contains(symbol),
    ensures
        exists|k: int|
            0 <= k < graph.functions.len() && (#[trigger] graph.functions[k]).id == symbol
                && answers_to(symbol, graph.functions[k].label.default, entry),
{
    let keep = entry_places(graph, entry);
    kept_ids_are_in_order(graph, keep, graph.functions.len());
    assert(kept_ids(graph, keep).contains(symbol));
    let k = choose|k: int|
        0 <= k < graph.functions.len() && keep.contains(k) && (#[trigger] graph.functions[k]).id
            == symbol;
    assert(graph.functions[k].id == symbol);
}

/// A function's whole symbol always asks for that function: where the symbol
/// resolves at all, the function is among the results.
pub proof fn whole_symbols_ask_for_their_function(graph: GraphModel, k: int)
    requires
        in_order(graph),
        0 <= k < graph.functions.len(),
    ensures
        resolved_entries(graph, symbol_text(graph.functions[k].id)) matches Ok(symbols)
            ==> symbols.contains(graph.functions[k].id),
{
    let entry = symbol_text(graph.functions[k].id);
    let keep = entry_places(graph, entry);
    kept_ids_are_in_order(graph, keep, graph.functions.len());
    assert(keep.contains(k));
    assert(kept_ids(graph, keep).contains(graph.functions[k].id));
}

/// The places that are flagged.
pub open spec fn flagged(flags: Seq<bool>) -> Set<int> {
    Set::new(|k: int| 0 <= k < flags.len() && flags[k])
}

fn is_same_source(left: &FunctionInfo, right: &FunctionInfo) -> (result: bool)
    ensures
        result == same_source(left@, right@),
{
    same_text(
        strip_generic_arguments(callable_prefix(left.label.default.as_str()).as_str()).as_str(),
        strip_generic_arguments(callable_prefix(right.label.default.as_str()).as_str()).as_str(),
    ) && left.span.same(&right.span)
}

} // verus!
