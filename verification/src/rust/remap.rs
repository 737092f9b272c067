//! Moving what was found in a copy of a Rust source to the source, and the
//! entries that a copy is made for.
use crate::files::{files_match, source_files_match, KnownFile};
use crate::lists::views;
use crate::model::{
    path_models, AnalysisModel, CallSite, FactModel, FileAnalysis, FunctionInfo, FunctionModel,
    LanguageFact, SiteModel, SourceSpan, SpanModel, SymbolId, SymbolModel,
};
use crate::names::{callable_part, callable_prefix};
use crate::paths::{
    is_absolute, parent_of, parts_of, path_behind, path_parts, path_under, stem_of, SourcePath,
};
use crate::rust::labels::{begins_with, begins_with_char, has_char};
use crate::rust::semantic::{
    ProgramModel, SemanticCall, SemanticCallModel, SemanticFunction, SemanticModel,
    SemanticProgram,
};
use crate::sets::{insert_path, with_path};
use crate::text::{
    chars_of, concat_texts, contains, contains_text, decimal, decimal_text, ends_with,
    ends_with_text, find, join_texts, joined, replace_text, replaced, same_text, slice_text,
    strip_prefix, strip_prefix_text, strip_suffix_text, texts,
};
use vstd::prelude::*;

verus! {

/// A stretch of one file, told of another.
pub open spec fn moved_span(
    span: SpanModel,
    from: Seq<char>,
    to: Seq<char>,
    known: Seq<(Seq<char>, Seq<char>)>,
) -> SpanModel {
    if files_match(known, span.file, from) {
        SpanModel { file: to, ..span }
    } else {
        span
    }
}

fn move_span(span: &SourceSpan, from: &SourcePath, to: &SourcePath, known: &Vec<KnownFile>) -> (result:
    SourceSpan)
    ensures
        result@ == moved_span(span@, from@, to@, views(known@)),
{
    let mut result = span.clone();
    if source_files_match(known, &span.file, from) {
        result.file = to.clone();
    }
    result
}

/// A function that rustc found in one file, told of another.
pub open spec fn moved_function(
    function: SemanticModel,
    from: Seq<char>,
    to: Seq<char>,
    known: Seq<(Seq<char>, Seq<char>)>,
) -> SemanticModel {
    SemanticModel {
        body_span: moved_span(function.body_span, from, to, known),
        calls: function.calls.map_values(
            |call: SemanticCallModel|
                SemanticCallModel { span: moved_span(call.span, from, to, known), ..call },
        ),
        ..function
    }
}

fn move_function(
    function: &SemanticFunction,
    from: &SourcePath,
    to: &SourcePath,
    known: &Vec<KnownFile>,
) -> (result: SemanticFunction)
    ensures
        result@ == moved_function(function@, from@, to@, views(known@)),
{
    let ghost wanted = moved_function(function@, from@, to@, views(known@)).calls;
    let mut result = function.clone();
    result.body_span = move_span(&function.body_span, from, to, known);
    let mut calls: Vec<SemanticCall> = Vec::new();
    let mut index: usize = 0;
    while index < function.calls.len()
        invariant
            index <= function.calls@.len(),
            calls@.len() == index,
            wanted == moved_function(function@, from@, to@, views(known@)).calls,
            forall|k: int| 0 <= k < index ==> (#[trigger] calls@[k])@ == wanted[k],
        decreases function.calls@.len() - index,
    {
        proof {
            assert(function@.calls[index as int] == function.calls@[index as int]@);
        }
        let mut call = function.calls[index].clone();
        call.span = move_span(&function.calls[index].span, from, to, known);
        calls.push(call);
        index += 1;
    }
    result.calls = calls;
    proof {
        assert(result@.calls =~= wanted);
    }
    result
}

/// A program that rustc found in one file, told of another.
pub open spec fn moved_program(
    program: ProgramModel,
    from: Seq<char>,
    to: Seq<char>,
    known: Seq<(Seq<char>, Seq<char>)>,
) -> ProgramModel {
    ProgramModel {
        functions: program.functions.map_values(
            |function: SemanticModel| moved_function(function, from, to, known),
        ),
        ..program
    }
}

/// Tells what rustc found in one file of another.
pub fn remap_semantic_file(
    program: &mut SemanticProgram,
    from: &SourcePath,
    to: &SourcePath,
    known: &Vec<KnownFile>,
)
    ensures
        final(program)@ == moved_program(old(program)@, from@, to@, views(known@)),
{
    let ghost start = program@;
    let ghost wanted = moved_program(start, from@, to@, views(known@)).functions;
    let mut functions: Vec<SemanticFunction> = Vec::new();
    let mut index: usize = 0;
    while index < program.functions.len()
        invariant
            index <= program.functions@.len(),
            functions@.len() == index,
            start == program@,
            wanted == moved_program(start, from@, to@, views(known@)).functions,
            forall|k: int| 0 <= k < index ==> (#[trigger] functions@[k])@ == wanted[k],
        decreases program.functions@.len() - index,
    {
        proof {
            assert(start.functions[index as int] == program.functions@[index as int]@);
        }
        functions.push(move_function(&program.functions[index], from, to, known));
        index += 1;
    }
    program.functions = functions;
    proof {
        assert(program@.functions =~= wanted);
    }
}

/// A path below one directory, moved below another.
pub open spec fn rerooted(path: Seq<char>, from: Seq<char>, to: Seq<char>) -> Seq<char> {
    match path_under(path, from) {
        Some(relative) => path_behind(to, relative),
        None => path,
    }
}

fn reroot(path: &SourcePath, from: &SourcePath, to: &SourcePath) -> (result: SourcePath)
    ensures
        result@ == rerooted(path@, from@, to@),
{
    match path.strip_prefix(from) {
        Some(relative) => to.join(relative.text.as_str()),
        None => path.clone(),
    }
}

/// A stretch of a file below one directory, moved below another.
pub open spec fn rerooted_span(span: SpanModel, from: Seq<char>, to: Seq<char>) -> SpanModel {
    SpanModel { file: rerooted(span.file, from, to), ..span }
}

fn reroot_span(span: &SourceSpan, from: &SourcePath, to: &SourcePath) -> (result: SourceSpan)
    ensures
        result@ == rerooted_span(span@, from@, to@),
{
    let mut result = span.clone();
    result.file = reroot(&span.file, from, to);
    result
}

/// A function in a file below one directory, moved below another.
pub open spec fn rerooted_function(function: FunctionModel, from: Seq<char>, to: Seq<char>) -> FunctionModel {
    FunctionModel {
        span: rerooted_span(function.span, from, to),
        calls: function.calls.map_values(
            |call: SiteModel| SiteModel { span: rerooted_span(call.span, from, to), ..call },
        ),
        ..function
    }
}

fn reroot_function(function: &FunctionInfo, from: &SourcePath, to: &SourcePath) -> (result: FunctionInfo)
    ensures
        result@ == rerooted_function(function@, from@, to@),
{
    let ghost wanted = rerooted_function(function@, from@, to@).calls;
    let mut calls: Vec<CallSite> = Vec::new();
    let mut index: usize = 0;
    while index < function.calls.len()
        invariant
            index <= function.calls@.len(),
            calls@.len() == index,
            wanted == rerooted_function(function@, from@, to@).calls,
            forall|k: int| 0 <= k < index ==> (#[trigger] calls@[k])@ == wanted[k],
        decreases function.calls@.len() - index,
    {
        proof {
            assert(function@.calls[index as int] == function.calls@[index as int]@);
        }
        let mut call = function.calls[index].clone();
        call.span = reroot_span(&function.calls[index].span, from, to);
        calls.push(call);
        index += 1;
    }
    let result = FunctionInfo {
        id: function.id.clone(),
        label: function.label.clone(),
        public: function.public,
        calls,
        span: reroot_span(&function.span, from, to),
    };
    proof {
        assert(result@.calls =~= wanted);
    }
    result
}

/// The first `count` files, moved below another directory.
pub open spec fn rerooted_files(
    files: Seq<Seq<char>>,
    from: Seq<char>,
    to: Seq<char>,
    count: int,
) -> Seq<Seq<char>>
    decreases count,
{
    if count <= 0 {
        Seq::empty()
    } else {
        with_path(
            rerooted_files(files, from, to, count - 1),
            rerooted(files[count - 1], from, to),
        )
    }
}

/// An analysis of files below one directory, moved below another.
pub open spec fn rerooted_analysis(analysis: AnalysisModel, from: Seq<char>, to: Seq<char>) -> AnalysisModel {
    AnalysisModel {
        functions: analysis.functions.map_values(
            |function: FunctionModel| rerooted_function(function, from, to),
        ),
        facts: analysis.facts.map_values(
            |fact: FactModel| FactModel { span: rerooted_span(fact.span, from, to), ..fact },
        ),
        source_files: rerooted_files(
            analysis.source_files,
            from,
            to,
            analysis.source_files.len() as int,
        ),
        ..analysis
    }
}

fn reroot_functions(functions: &Vec<FunctionInfo>, from: &SourcePath, to: &SourcePath) -> (result: Vec<
    FunctionInfo,
>)
    ensures
        views(result@) == views(functions@).map_values(
            |function: FunctionModel| rerooted_function(function, from@, to@),
        ),
{
    let ghost wanted = views(functions@).map_values(
        |function: FunctionModel| rerooted_function(function, from@, to@),
    );
    let mut result: Vec<FunctionInfo> = Vec::new();
    let mut index: usize = 0;
    while index < functions.len()
        invariant
            index <= functions@.len(),
            result@.len() == index,
            wanted == views(functions@).map_values(
                |function: FunctionModel| rerooted_function(function, from@, to@),
            ),
            forall|k: int| 0 <= k < index ==> (#[trigger] result@[k])@ == wanted[k],
        decreases functions@.len() - index,
    {
        proof {
            assert(views(functions@)[index as int] == functions@[index as int]@);
        }
        result.push(reroot_function(&functions[index], from, to));
        index += 1;
    }
    proof {
        assert(views(result@) =~= wanted);
    }
    result
}

fn reroot_facts(facts: &Vec<LanguageFact>, from: &SourcePath, to: &SourcePath) -> (result: Vec<
    LanguageFact,
>)
    ensures
        views(result@) == views(facts@).map_values(
            |fact: FactModel| FactModel { span: rerooted_span(fact.span, from@, to@), ..fact },
        ),
{
    let ghost wanted = views(facts@).map_values(
        |fact: FactModel| FactModel { span: rerooted_span(fact.span, from@, to@), ..fact },
    );
    let mut result: Vec<LanguageFact> = Vec::new();
    let mut index: usize = 0;
    while index < facts.len()
        invariant
            index <= facts@.len(),
            result@.len() == index,
            wanted == views(facts@).map_values(
                |fact: FactModel|
                    FactModel { span: rerooted_span(fact.span, from@, to@), ..fact },
            ),
            forall|k: int| 0 <= k < index ==> (#[trigger] result@[k])@ == wanted[k],
        decreases facts@.len() - index,
    {
        proof {
            assert(views(facts@)[index as int] == facts@[index as int]@);
        }
        let mut fact = facts[index].clone();
        fact.span = reroot_span(&facts[index].span, from, to);
        result.push(fact);
        index += 1;
    }
    proof {
        assert(views(result@) =~= wanted);
    }
    result
}

/// Moves an analysis of files below one directory below another.
pub fn remap_analysis_root(analysis: &mut FileAnalysis, from: &SourcePath, to: &SourcePath)
    ensures
        final(analysis)@ == rerooted_analysis(old(analysis)@, from@, to@),
{
    let ghost start = analysis@;
    proof {
        assert(views(analysis.functions@) =~= start.functions);
        assert(views(analysis.facts@) =~= start.facts);
        assert(start.source_files.len() == analysis.source_files@.len());
    }
    let functions = reroot_functions(&analysis.functions, from, to);
    let facts = reroot_facts(&analysis.facts, from, to);
    let mut files: Vec<SourcePath> = Vec::new();
    let mut index: usize = 0;
    proof {
        assert(path_models(files@) =~= Seq::empty());
    }
    while index < analysis.source_files.len()
        invariant
            index <= analysis.source_files@.len(),
            start.source_files == path_models(analysis.source_files@),
            path_models(files@) == rerooted_files(
                start.source_files,
                from@,
                to@,
                index as int,
            ),
        decreases analysis.source_files@.len() - index,
    {
        proof {
            assert(start.source_files[index as int] == analysis.source_files@[index as int]@);
        }
        insert_path(&mut files, reroot(&analysis.source_files[index], from, to));
        index += 1;
    }
    analysis.functions = functions;
    analysis.facts = facts;
    analysis.source_files = files;
    proof {
        assert(analysis@.functions =~= views(analysis.functions@));
        assert(analysis@.facts =~= views(analysis.facts@));
    }
}

/// Whether a function was added to a source for an entry.
pub open spec fn is_seed(function: FunctionModel) -> bool {
    contains(function.label.default, "__diffkit_seed_"@)
}

/// The identities of the functions among the first `count` that were added for
/// entries.
pub open spec fn seed_ids(functions: Seq<FunctionModel>, count: int) -> Seq<SymbolModel>
    decreases count,
{
    if count <= 0 {
        Seq::empty()
    } else {
        let before = seed_ids(functions, count - 1);
        if is_seed(functions[count - 1]) {
            before.push(functions[count - 1].id)
        } else {
            before
        }
    }
}

/// The first `count` functions without those of some identities.
pub open spec fn functions_without(
    functions: Seq<FunctionModel>,
    ids: Seq<SymbolModel>,
    count: int,
) -> Seq<FunctionModel>
    decreases count,
{
    if count <= 0 {
        Seq::empty()
    } else {
        let before = functions_without(functions, ids, count - 1);
        if ids.contains(functions[count - 1].id) {
            before
        } else {
            before.push(functions[count - 1])
        }
    }
}

/// The first `count` facts without those on some functions.
pub open spec fn facts_without(facts: Seq<FactModel>, ids: Seq<SymbolModel>, count: int) -> Seq<FactModel>
    decreases count,
{
    if count <= 0 {
        Seq::empty()
    } else {
        let before = facts_without(facts, ids, count - 1);
        if ids.contains(facts[count - 1].subject) {
            before
        } else {
            before.push(facts[count - 1])
        }
    }
}

/// An analysis without the functions that were added for entries.
pub open spec fn without_seeds(analysis: AnalysisModel) -> AnalysisModel {
    let ids = seed_ids(analysis.functions, analysis.functions.len() as int);
    AnalysisModel {
        functions: functions_without(
            analysis.functions,
            ids,
            analysis.functions.len() as int,
        ),
        facts: facts_without(analysis.facts, ids, analysis.facts.len() as int),
        ..analysis
    }
}

fn has_symbol(symbols: &Vec<SymbolId>, id: &SymbolId) -> (result: bool)
    ensures
        result == views(symbols@).contains(id@),
{
    let ghost model = views(symbols@);
    let mut index: usize = 0;
    while index < symbols.len()
        invariant
            index <= symbols@.len(),
            model == views(symbols@),
            forall|k: int| 0 <= k < index ==> #[trigger] model[k] != id@,
        decreases symbols@.len() - index,
    {
        proof {
            assert(model[index as int] == symbols@[index as int]@);
        }
        if symbols[index].same(id) {
            return true;
        }
        index += 1;
    }
    false
}

fn find_seed_ids(functions: &Vec<FunctionInfo>) -> (result: Vec<SymbolId>)
    ensures
        views(result@) == seed_ids(views(functions@), functions@.len() as int),
{
    let mut result: Vec<SymbolId> = Vec::new();
    let mut index: usize = 0;
    proof {
        assert(views(result@) =~= Seq::empty());
    }
    while index < functions.len()
        invariant
            index <= functions@.len(),
            views(result@) == seed_ids(views(functions@), index as int),
        decreases functions@.len() - index,
    {
        proof {
            assert(views(functions@)[index as int] == functions@[index as int]@);
        }
        if contains_text(functions[index].label.default.as_str(), "__diffkit_seed_") {
            let ghost before = views(result@);
            let id = functions[index].id.clone();
            let ghost model = id@;
            result.push(id);
            proof {
                assert(views(result@) =~= before.push(model));
            }
        }
        index += 1;
    }
    result
}

/// Removes the functions that were added for entries.
pub fn remove_seed_functions(analysis: &mut FileAnalysis)
    ensures
        final(analysis)@ == without_seeds(old(analysis)@),
{
    let ghost start = analysis@;
    let ids = find_seed_ids(&analysis.functions);
    proof {
        assert(views(analysis.functions@) =~= start.functions);
        assert(views(analysis.facts@) =~= start.facts);
        assert(start.functions.len() == analysis.functions@.len());
        assert(start.facts.len() == analysis.facts@.len());
    }
    let mut functions: Vec<FunctionInfo> = Vec::new();
    let mut index: usize = 0;
    proof {
        assert(views(functions@) =~= Seq::empty());
    }
    while index < analysis.functions.len()
        invariant
            index <= analysis.functions@.len(),
            views(analysis.functions@) == start.functions,
            views(functions@) == functions_without(
                start.functions,
                views(ids@),
                index as int,
            ),
        decreases analysis.functions@.len() - index,
    {
        proof {
            assert(start.functions[index as int] == analysis.functions@[index as int]@);
        }
        if !has_symbol(&ids, &analysis.functions[index].id) {
            let ghost before = views(functions@);
            let function = analysis.functions[index].clone();
            let ghost model = function@;
            functions.push(function);
            proof {
                assert(views(functions@) =~= before.push(model));
            }
        }
        index += 1;
    }
    let mut facts: Vec<LanguageFact> = Vec::new();
    let mut next: usize = 0;
    proof {
        assert(views(facts@) =~= Seq::empty());
    }
    while next < analysis.facts.len()
        invariant
            next <= analysis.facts@.len(),
            views(analysis.facts@) == start.facts,
            views(facts@) == facts_without(start.facts, views(ids@), next as int),
        decreases analysis.facts@.len() - next,
    {
        proof {
            assert(start.facts[next as int] == analysis.facts@[next as int]@);
        }
        if !has_symbol(&ids, &analysis.facts[next].subject) {
            let ghost before = views(facts@);
            let fact = analysis.facts[next].clone();
            let ghost model = fact@;
            facts.push(fact);
            proof {
                assert(views(facts@) =~= before.push(model));
            }
        }
        next += 1;
    }
    analysis.functions = functions;
    analysis.facts = facts;
    proof {
        assert(analysis@.functions =~= views(analysis.functions@));
        assert(analysis@.facts =~= views(analysis.facts@));
    }
}

/// The directories of a path, the root among them.
pub open spec fn components_of(path: Seq<char>) -> Seq<Seq<char>> {
    if is_absolute(path) {
        seq!["/"@] + path_parts(path)
    } else {
        path_parts(path)
    }
}

/// The module of a file of a Rust project: the directories below the sources,
/// and the name of the file where it is not one that stands for its directory.
pub open spec fn module_of_file(root: Seq<char>, file: Seq<char>) -> Seq<Seq<char>> {
    let relative = match path_under(file, path_behind(root, "src"@)) {
        Some(relative) => relative,
        None => match path_under(file, root) {
            Some(relative) => relative,
            None => file,
        },
    };
    let parts = match parent_of(relative) {
        Some(parent) => components_of(parent),
        None => Seq::empty(),
    };
    let stem = match stem_of(file) {
        Some(stem) => stem,
        None => ""@,
    };
    if stem == "lib"@ || stem == "main"@ || stem == "mod"@ {
        parts
    } else {
        parts.push(stem)
    }
}

/// The module of a file of a Rust project.
pub fn rust_module_path(root: &SourcePath, file: &SourcePath) -> (result: Vec<String>)
    ensures
        texts(result@) == module_of_file(root@, file@),
{
    let relative = match file.strip_prefix(&root.join("src")) {
        Some(relative) => relative,
        None => match file.strip_prefix(root) {
            Some(relative) => relative,
            None => file.clone(),
        },
    };
    let mut parts: Vec<String> = Vec::new();
    proof {
        assert(texts(parts@) =~= Seq::empty());
    }
    if let Some(parent) = relative.parent() {
        if parent.is_absolute() {
            parts.push("/".to_owned());
        }
        let ghost before = texts(parts@);
        let mut more = parts_of(parent.text.as_str());
        let ghost added = texts(more@);
        parts.append(&mut more);
        proof {
            assert(texts(parts@) =~= before + added);
            assert(texts(parts@) =~= components_of(parent@));
        }
    }
    let stem = match file.file_stem() {
        Some(stem) => stem,
        None => "".to_owned(),
    };
    if !(same_text(stem.as_str(), "lib") || same_text(stem.as_str(), "main") || same_text(
        stem.as_str(),
        "mod",
    )) {
        let ghost before = texts(parts@);
        let ghost name = stem@;
        parts.push(stem);
        proof {
            assert(texts(parts@) =~= before.push(name));
        }
    }
    parts
}

/// What an entry is called in labels.
pub open spec fn entry_name(entry: Seq<char>) -> Seq<char> {
    replaced(replaced(entry, "."@, "::"@), "::<"@, "<"@)
}

/// Whether a function is the one that an entry names.
pub open spec fn is_entry(function: FunctionModel, entry: Seq<char>) -> bool {
    let callable = callable_part(function.label.default);
    callable == entry_name(entry) || ends_with(callable, "::"@ + entry_name(entry))
}

/// Whether an analysis has the function that an entry names.
pub open spec fn has_entry(analysis: AnalysisModel, entry: Seq<char>) -> bool {
    exists|k: int|
        0 <= k < analysis.functions.len() && is_entry(#[trigger] analysis.functions[k], entry)
}

/// Whether an analysis has the function that an entry names.
pub fn analysis_has_entry(analysis: &FileAnalysis, entry: &str) -> (result: bool)
    ensures
        result == has_entry(analysis@, entry@),
{
    proof {
        reveal_strlit(".");
        reveal_strlit("::<");
    }
    let expected = replace_text(replace_text(entry, ".", "::").as_str(), "::<", "<");
    let suffix = concat_texts("::", expected.as_str());
    let mut index: usize = 0;
    while index < analysis.functions.len()
        invariant
            index <= analysis.functions@.len(),
            expected@ == entry_name(entry@),
            suffix@ == "::"@ + entry_name(entry@),
            forall|k: int|
                0 <= k < index ==> !is_entry(#[trigger] analysis@.functions[k], entry@),
        decreases analysis.functions@.len() - index,
    {
        proof {
            assert(analysis@.functions[index as int] == analysis.functions@[index as int]@);
        }
        let callable = callable_prefix(analysis.functions[index].label.default.as_str());
        if same_text(callable.as_str(), expected.as_str()) || ends_with_text(
            callable.as_str(),
            suffix.as_str(),
        ) {
            return true;
        }
        index += 1;
    }
    false
}

/// The first `count` entries that name instances of generic functions.
pub open spec fn generic_entries(entries: Seq<Seq<char>>, count: int) -> Seq<Seq<char>>
    decreases count,
{
    if count <= 0 {
        Seq::empty()
    } else {
        let before = generic_entries(entries, count - 1);
        if entries[count - 1].contains('<') {
            before.push(entries[count - 1])
        } else {
            before
        }
    }
}

/// Finds the entries that name instances of generic functions.
pub fn find_generic_entries(entries: &Vec<String>) -> (result: Vec<String>)
    ensures
        texts(result@) == generic_entries(texts(entries@), entries@.len() as int),
{
    let mut result: Vec<String> = Vec::new();
    let mut index: usize = 0;
    proof {
        assert(texts(result@) =~= Seq::empty());
    }
    while index < entries.len()
        invariant
            index <= entries@.len(),
            texts(result@) == generic_entries(texts(entries@), index as int),
        decreases entries@.len() - index,
    {
        proof {
            assert(texts(entries@)[index as int] == entries@[index as int]@);
        }
        if has_char(entries[index].as_str(), '<') {
            let ghost before = texts(result@);
            result.push(entries[index].clone());
            proof {
                assert(texts(result@) =~= before.push(entries@[index as int]@));
            }
        }
        index += 1;
    }
    result
}

/// The first `count` entries that name instances of generic functions that an
/// analysis does not have.
pub open spec fn missing_entries(analysis: AnalysisModel, entries: Seq<Seq<char>>, count: int) -> Seq<
    Seq<char>,
>
    decreases count,
{
    if count <= 0 {
        Seq::empty()
    } else {
        let before = missing_entries(analysis, entries, count - 1);
        if entries[count - 1].contains('<') && !has_entry(analysis, entries[count - 1]) {
            before.push(entries[count - 1])
        } else {
            before
        }
    }
}

/// Finds the entries that name instances of generic functions that an analysis
/// does not have.
pub fn find_missing_entries(analysis: &FileAnalysis, entries: &Vec<String>) -> (result: Vec<String>)
    ensures
        texts(result@) == missing_entries(analysis@, texts(entries@), entries@.len() as int),
{
    let mut result: Vec<String> = Vec::new();
    let mut index: usize = 0;
    proof {
        assert(texts(result@) =~= Seq::empty());
    }
    while index < entries.len()
        invariant
            index <= entries@.len(),
            texts(result@) == missing_entries(analysis@, texts(entries@), index as int),
        decreases entries@.len() - index,
    {
        proof {
            assert(texts(entries@)[index as int] == entries@[index as int]@);
        }
        if has_char(entries[index].as_str(), '<') && !analysis_has_entry(
            analysis,
            entries[index].as_str(),
        ) {
            let ghost before = texts(result@);
            result.push(entries[index].clone());
            proof {
                assert(texts(result@) =~= before.push(entries@[index as int]@));
            }
        }
        index += 1;
    }
    result
}

/// A function that a source can be made to call.
#[derive(Debug)]
pub struct SeedableFunction {
    pub name: String,
    pub qualified_name: String,
    pub argument_count: usize,
}

#[verifier::ext_equal]
pub struct SeedableModel {
    pub name: Seq<char>,
    pub qualified_name: Seq<char>,
    pub argument_count: usize,
}

impl View for SeedableFunction {
    type V = SeedableModel;

    open spec fn view(&self) -> SeedableModel {
        SeedableModel {
            name: self.name@,
            qualified_name: self.qualified_name@,
            argument_count: self.argument_count,
        }
    }
}

/// A text without the ends that are `suffix`.
pub open spec fn without_suffixes(text: Seq<char>, suffix: Seq<char>) -> Seq<char>
    decreases text.len(),
{
    if suffix.len() > 0 && ends_with(text, suffix) {
        without_suffixes(text.take(text.len() - suffix.len()), suffix)
    } else {
        text
    }
}

fn strip_suffixes(text: &str, suffix: &str) -> (result: String)
    requires
        suffix@.len() > 0,
    ensures
        result@ == without_suffixes(text@, suffix@),
    decreases text@.len(),
{
    match strip_suffix_text(text, suffix) {
        Some(rest) => {
            proof {
                assert(rest@ =~= text@.take(text@.len() - suffix@.len()));
            }
            strip_suffixes(rest.as_str(), suffix)
        },
        None => text.to_owned(),
    }
}

/// The function and the type arguments that an entry names: the path before
/// the first angle bracket, and what stands in the brackets.
pub open spec fn entry_parts(entry: Seq<char>) -> Option<(Seq<char>, Seq<char>)> {
    match find(entry, "<"@) {
        None => None,
        Some(start) => if !ends_with(entry, ">"@) || begins_with(entry, '<') {
            None
        } else {
            let base = replaced(without_suffixes(entry.take(start), "::"@), "."@, "::"@);
            let lookup = match strip_prefix(base, "crate::"@) {
                Some(rest) => rest,
                None => base,
            };
            Some((lookup, entry.subrange(start + 1, entry.len() - 1)))
        },
    }
}

fn find_entry_parts(entry: &str) -> (result: Option<(String, String)>)
    ensures
        match result {
            Some((lookup, generics)) => entry_parts(entry@) == Some((lookup@, generics@)),
            None => entry_parts(entry@) is None,
        },
{
    proof {
        reveal_strlit("<");
        reveal_strlit(">");
        reveal_strlit("::");
        reveal_strlit(".");
    }
    let characters = chars_of(entry);
    let length: usize = characters.len();
    let mark = chars_of("<");
    let start: usize = match crate::text::find_chars(characters.as_slice(), mark.as_slice(), 0) {
        Some(start) => start,
        None => {
            return None;
        },
    };
    if !ends_with_text(entry, ">") || begins_with_char(entry, '<') {
        return None;
    }
    proof {
        assert(entry@[start as int] == '<') by {
            assert(crate::text::occurs_at(entry@, "<"@, start as int));
            assert(entry@.subrange(start as int, start + 1)[0] == "<"@[0]);
        }
        assert(entry@.last() == '>') by {
            assert(entry@.skip(length - 1)[0] == ">"@[0]);
        }
        assert(start + 1 <= length - 1);
        assert(entry@.subrange(0, start as int) =~= entry@.take(start as int));
    }
    let path = slice_text(characters.as_slice(), 0, start);
    let base = replace_text(strip_suffixes(path.as_str(), "::").as_str(), ".", "::");
    let lookup = match strip_prefix_text(base.as_str(), "crate::") {
        Some(rest) => rest,
        None => base,
    };
    Some((lookup, slice_text(characters.as_slice(), start + 1, length - 1)))
}

/// Whether a path names a function.
pub open spec fn names_seedable(function: SeedableModel, lookup: Seq<char>) -> bool {
    lookup == function.qualified_name || (!contains(lookup, "::"@) && lookup == function.name)
}

/// The functions among the first `count` that a path names.
pub open spec fn named_seedables(functions: Seq<SeedableModel>, lookup: Seq<char>, count: int) -> Seq<int>
    decreases count,
{
    if count <= 0 {
        Seq::empty()
    } else {
        let before = named_seedables(functions, lookup, count - 1);
        if names_seedable(functions[count - 1], lookup) {
            before.push(count - 1)
        } else {
            before
        }
    }
}

fn find_named_seedables(functions: &Vec<SeedableFunction>, lookup: &str) -> (result: Vec<usize>)
    ensures
        result@.map_values(|place: usize| place as int) == named_seedables(
            views(functions@),
            lookup@,
            functions@.len() as int,
        ),
        forall|k: int| 0 <= k < result@.len() ==> #[trigger] result@[k] < functions@.len(),
{
    let mut result: Vec<usize> = Vec::new();
    let mut index: usize = 0;
    proof {
        assert(result@.map_values(|place: usize| place as int) =~= Seq::<int>::empty());
    }
    while index < functions.len()
        invariant
            index <= functions@.len(),
            result@.map_values(|place: usize| place as int) == named_seedables(
                views(functions@),
                lookup@,
                index as int,
            ),
            forall|k: int| 0 <= k < result@.len() ==> #[trigger] result@[k] < functions@.len(),
        decreases functions@.len() - index,
    {
        let function = &functions[index];
        proof {
            assert(views(functions@)[index as int] == function@);
        }
        if same_text(lookup, function.qualified_name.as_str()) || (!contains_text(lookup, "::")
            && same_text(lookup, function.name.as_str())) {
            let ghost before = result@.map_values(|place: usize| place as int);
            result.push(index);
            proof {
                assert(result@.map_values(|place: usize| place as int) =~= before.push(
                    index as int,
                ));
            }
        }
        index += 1;
    }
    result
}

/// An argument of any type.
pub open spec fn any_argument() -> Seq<char> {
    "::core::mem::MaybeUninit::uninit().assume_init()"@
}

/// A function that calls an instance of a function.
pub open spec fn seed_text(number: nat, function: SeedableModel, generics: Seq<char>) -> Seq<char> {
    "\n#[doc(hidden)]\n#[allow(dead_code, invalid_value, unused_unsafe)]\nfn __diffkit_seed_"@
        + decimal(number) + "() {\n    unsafe { let _ = "@ + function.qualified_name + "::<"@
        + generics + ">("@ + joined(
        Seq::new(function.argument_count as nat, |index: int| any_argument()),
        ", "@,
    ) + "); }\n}\n"@
}

fn make_seed_text(number: usize, function: &SeedableFunction, generics: &str) -> (result: String)
    ensures
        result@ == seed_text(number as nat, function@, generics@),
{
    let mut values: Vec<String> = Vec::new();
    let mut index: usize = 0;
    while index < function.argument_count
        invariant
            index <= function.argument_count,
            values@.len() == index,
            forall|k: int| 0 <= k < index ==> (#[trigger] values@[k])@ == any_argument(),
        decreases function.argument_count - index,
    {
        values.push("::core::mem::MaybeUninit::uninit().assume_init()".to_owned());
        index += 1;
    }
    proof {
        assert(texts(values@) =~= Seq::new(
            function.argument_count as nat,
            |index: int| any_argument(),
        ));
    }
    let mut result =
        "\n#[doc(hidden)]\n#[allow(dead_code, invalid_value, unused_unsafe)]\nfn __diffkit_seed_".to_owned();
    result.append(decimal_text(number).as_str());
    result.append("() {\n    unsafe { let _ = ");
    result.append(function.qualified_name.as_str());
    result.append("::<");
    result.append(generics);
    result.append(">(");
    result.append(join_texts(&values, ", ").as_str());
    result.append("); }\n}\n");
    result
}

/// The functions that call the instances that the first `count` entries name.
/// An entry that does not name one function is left out.
pub open spec fn seeds_for(functions: Seq<SeedableModel>, entries: Seq<Seq<char>>, count: int) -> Seq<
    Seq<char>,
>
    decreases count,
{
    if count <= 0 {
        Seq::empty()
    } else {
        let before = seeds_for(functions, entries, count - 1);
        match entry_parts(entries[count - 1]) {
            None => before,
            Some((lookup, generics)) => {
                let named = named_seedables(functions, lookup, functions.len() as int);
                if named.len() == 1 {
                    before.push(seed_text(before.len(), functions[named[0]], generics))
                } else {
                    before
                }
            },
        }
    }
}

/// A source with functions behind it that call the instances that entries
/// name. None where no entry names one.
pub open spec fn seeded_source(
    source: Seq<char>,
    functions: Seq<SeedableModel>,
    entries: Seq<Seq<char>>,
) -> Option<Seq<char>> {
    let seeds = seeds_for(functions, entries, entries.len() as int);
    if seeds.len() == 0 {
        None
    } else {
        Some(source + joined(seeds, ""@))
    }
}

/// Adds functions to a source that call the instances that entries name.
pub fn append_entry_seeds(source: &str, functions: &Vec<SeedableFunction>, entries: &Vec<String>) -> (result:
    Option<String>)
    ensures
        match result {
            Some(seeded) => seeded_source(source@, views(functions@), texts(entries@)) == Some(
                seeded@,
            ),
            None => seeded_source(source@, views(functions@), texts(entries@)) is None,
        },
{
    let mut seeds: Vec<String> = Vec::new();
    let mut index: usize = 0;
    proof {
        assert(texts(seeds@) =~= Seq::empty());
        assert(views(functions@).len() == functions@.len());
        assert(texts(entries@).len() == entries@.len());
    }
    while index < entries.len()
        invariant
            index <= entries@.len(),
            views(functions@).len() == functions@.len(),
            texts(seeds@) == seeds_for(views(functions@), texts(entries@), index as int),
        decreases entries@.len() - index,
    {
        proof {
            assert(texts(entries@)[index as int] == entries@[index as int]@);
            assert(texts(seeds@).len() == seeds@.len());
        }
        if let Some((lookup, generics)) = find_entry_parts(entries[index].as_str()) {
            let named = find_named_seedables(functions, lookup.as_str());
            let ghost places = named@.map_values(|place: usize| place as int);
            proof {
                assert(places.len() == named@.len());
            }
            if named.len() == 1 {
                let place: usize = named[0];
                proof {
                    assert(places[0] == place);
                    assert(views(functions@)[place as int] == functions@[place as int]@);
                }
                let ghost before = texts(seeds@);
                let seed = make_seed_text(seeds.len(), &functions[place], generics.as_str());
                let ghost model = seed@;
                seeds.push(seed);
                proof {
                    assert(texts(seeds@) =~= before.push(model));
                }
            }
        }
        index += 1;
    }
    proof {
        assert(texts(seeds@).len() == seeds@.len());
    }
    if seeds.len() == 0 {
        None
    } else {
        Some(concat_texts(source, join_texts(&seeds, "").as_str()))
    }
}

proof fn seeds_are_listed(functions: Seq<FunctionModel>, count: int, index: int)
    requires
        0 <= index < count <= functions.len(),
        is_seed(functions[index]),
    ensures
        seed_ids(functions, count).contains(functions[index].id),
    decreases count,
{
    let before = seed_ids(functions, count - 1);
    if index == count - 1 {
        assert(before.push(functions[index].id)[before.len() as int] == functions[index].id);
    } else {
        seeds_are_listed(functions, count - 1, index);
        let k = choose|k: int| 0 <= k < before.len() && before[k] == functions[index].id;
        assert(seed_ids(functions, count)[k] == functions[index].id);
    }
}

proof fn kept_functions_are_no_seeds(
    functions: Seq<FunctionModel>,
    ids: Seq<SymbolModel>,
    count: int,
    index: int,
)
    requires
        0 <= count <= functions.len(),
        0 <= index < functions_without(functions, ids, count).len(),
    ensures
        ({
            let kept = functions_without(functions, ids, count)[index];
            !ids.contains(kept.id) && exists|k: int|
                0 <= k < count && #[trigger] functions[k] == kept
        }),
    decreases count,
{
    if count > 0 {
        let before = functions_without(functions, ids, count - 1);
        if index < before.len() {
            kept_functions_are_no_seeds(functions, ids, count - 1, index);
            assert(functions_without(functions, ids, count)[index] == before[index]);
        } else {
            assert(functions[count - 1] == functions_without(functions, ids, count)[index]);
        }
    }
}

/// No function that was added for an entry is left.
pub proof fn no_seed_is_left(analysis: AnalysisModel, index: int)
    requires
        0 <= index < without_seeds(analysis).functions.len(),
    ensures
        !is_seed(without_seeds(analysis).functions[index]),
{
    let functions = analysis.functions;
    let ids = seed_ids(functions, functions.len() as int);
    kept_functions_are_no_seeds(functions, ids, functions.len() as int, index);
    let kept = without_seeds(analysis).functions[index];
    let k = choose|k: int| 0 <= k < functions.len() && #[trigger] functions[k] == kept;
    if is_seed(kept) {
        seeds_are_listed(functions, functions.len() as int, k);
    }
}

} // verus!
