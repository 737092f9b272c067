//! Analyzing OCaml sources.
use crate::append::appended;
use crate::files::KnownFile;
use crate::findings::{SourceText, SourceTextModel};
use crate::lists::views;
use crate::model::{AnalysisModel, FileAnalysis};
use crate::ocaml::calls::{resolve_ocaml_function_values, resolved_values};
use crate::ocaml::events::{
    apply_typed_events, with_events, EventModel, TypedCallEvent,
};
use crate::ocaml::groups::{
    local_calls_in, recursive_calls_resolved, redact_anonymous_call_arguments,
    redacted_functions, resolve_local_callables, resolve_ocaml_recursive_groups,
};
use crate::ocaml::labels::{module_name, ocaml_module_name};
use crate::ocaml::local::{disambiguate_ocaml_shadowed_bindings, disambiguated};
use crate::ocaml::structure::{analyze_structure, structure_among};
use crate::ocaml::syntax::{end_of, parse_rows, syntax_rows, RowModel};
use crate::paths::{extension_of, path_under, stem_of, SourcePath};
use crate::text::{concat_texts, same_text, texts};
use vstd::prelude::*;

verus! {

/// Why an OCaml source cannot be analyzed.
#[derive(Debug)]
pub enum OcamlError {
    /// The parser gave no syntax tree.
    NoTree,
    /// The source of a file has a syntax error.
    Syntax(SourcePath),
}

pub enum OcamlErrorModel {
    NoTree,
    Syntax(Seq<char>),
}

impl View for OcamlError {
    type V = OcamlErrorModel;

    open spec fn view(&self) -> OcamlErrorModel {
        match self {
            OcamlError::NoTree => OcamlErrorModel::NoTree,
            OcamlError::Syntax(path) => OcamlErrorModel::Syntax(path@),
        }
    }
}

/// What an error says.
pub open spec fn ocaml_error_text(error: OcamlErrorModel) -> Seq<char> {
    match error {
        OcamlErrorModel::NoTree => "OCaml parser returned no syntax tree"@,
        OcamlErrorModel::Syntax(path) => "failed to parse OCaml source: "@ + path,
    }
}

impl OcamlError {
    /// What the error says.
    pub fn to_text(&self) -> (result: String)
        ensures
            result@ == ocaml_error_text(self@),
    {
        match self {
            OcamlError::NoTree => "OCaml parser returned no syntax tree".to_owned(),
            OcamlError::Syntax(path) => concat_texts(
                "failed to parse OCaml source: ",
                path.text.as_str(),
            ),
        }
    }
}

/// An analysis, or why there is none.
pub open spec fn analysis_result(result: Result<FileAnalysis, OcamlError>) -> Result<
    AnalysisModel,
    OcamlErrorModel,
> {
    match result {
        Ok(analysis) => Ok(analysis@),
        Err(error) => Err(error@),
    }
}

/// Whether a file is the interface of a module.
pub open spec fn is_interface(path: Seq<char>) -> bool {
    extension_of(path) == Some("mli"@)
}

/// The names of modules, as OCaml writes them.
pub open spec fn module_names(module: Seq<Seq<char>>) -> Seq<Seq<char>> {
    module.map_values(|part: Seq<char>| module_name(part))
}

fn name_modules(module: &Vec<String>) -> (result: Vec<String>)
    ensures
        texts(result@) == module_names(texts(module@)),
{
    let mut result: Vec<String> = Vec::new();
    let mut index: usize = 0;
    while index < module.len()
        invariant
            index <= module@.len(),
            result@.len() == index,
            forall|k: int| 0 <= k < index ==> (#[trigger] result@[k])@ == module_name(module@[k]@),
        decreases module@.len() - index,
    {
        result.push(ocaml_module_name(module[index].as_str()));
        index += 1;
    }
    proof {
        assert(texts(result@) =~= module_names(texts(module@)));
    }
    result
}

/// What is found in a syntax tree, before any name is resolved.
pub open spec fn found_in(path: Seq<char>, module: Seq<Seq<char>>, rows: Seq<RowModel>) -> AnalysisModel {
    let found = structure_among(rows, path, module_names(module), 1, end_of(rows, 0));
    AnalysisModel {
        functions: found.functions,
        facts: found.facts,
        source_files: seq![path],
        roots: Seq::empty(),
    }
}

/// An analysis with the names resolved that the source itself resolves: hidden
/// bindings, functions that can call each other, and local functions.
/// Anonymous functions are shown by their names.
pub open spec fn resolved_in_source(found: AnalysisModel) -> AnalysisModel {
    let grouped = recursive_calls_resolved(disambiguated(found));
    let local = AnalysisModel {
        functions: local_calls_in(grouped.functions, grouped.facts),
        ..grouped
    };
    AnalysisModel { functions: redacted_functions(local.functions, local.facts), ..local }
}

/// What a syntax tree of a source says, or that it has an error.
pub open spec fn tree_analysis(
    path: Seq<char>,
    module: Seq<Seq<char>>,
    rows: Option<Seq<RowModel>>,
) -> Result<AnalysisModel, OcamlErrorModel> {
    match rows {
        None => Err(OcamlErrorModel::NoTree),
        Some(rows) => if rows.len() == 0 {
            Err(OcamlErrorModel::NoTree)
        } else if rows[0].error {
            Err(OcamlErrorModel::Syntax(path))
        } else {
            Ok(resolved_in_source(found_in(path, module, rows)))
        },
    }
}

/// What the source of a file says.
pub open spec fn source_analysis(path: Seq<char>, module: Seq<Seq<char>>, source: Seq<char>) -> Result<
    AnalysisModel,
    OcamlErrorModel,
> {
    tree_analysis(path, module, syntax_rows(source, is_interface(path)))
}

/// Analyzes the syntax tree of a source.
pub fn analyze_ocaml_tree(
    path: &SourcePath,
    module: &Vec<String>,
    rows: &Option<Vec<crate::ocaml::syntax::SyntaxRow>>,
) -> (result: Result<FileAnalysis, OcamlError>)
    ensures
        analysis_result(result) == tree_analysis(
            path@,
            texts(module@),
            match *rows {
                Some(rows) => Some(views(rows@)),
                None => None,
            },
        ),
{
    let rows = match rows {
        Some(rows) => rows,
        None => {
            return Err(OcamlError::NoTree);
        },
    };
    proof {
        assert(views(rows@).len() == rows@.len());
    }
    if rows.len() == 0 {
        return Err(OcamlError::NoTree);
    }
    proof {
        assert(views(rows@)[0] == rows@[0]@);
    }
    if rows[0].error {
        return Err(OcamlError::Syntax(path.clone()));
    }
    let found = analyze_structure(rows, path, &name_modules(module), 0);
    let mut source_files: Vec<SourcePath> = Vec::new();
    source_files.push(path.clone());
    let mut analysis = FileAnalysis {
        functions: found.functions,
        facts: found.facts,
        source_files,
        roots: Vec::new(),
    };
    proof {
        assert(analysis@.functions =~= found@.functions);
        assert(analysis@.facts =~= found@.facts);
        assert(analysis@.source_files =~= seq![path@]);
        assert(analysis@.roots =~= Seq::empty());
        assert(analysis@ =~= found_in(path@, texts(module@), views(rows@)));
    }
    disambiguate_ocaml_shadowed_bindings(&mut analysis);
    resolve_ocaml_recursive_groups(&mut analysis);
    resolve_local_callables(&mut analysis);
    redact_anonymous_call_arguments(&mut analysis);
    Ok(analysis)
}

/// Analyzes the source of a file by its syntax.
pub fn analyze_ocaml_syntax(path: &SourcePath, module: &Vec<String>, source: &str) -> (result: Result<
    FileAnalysis,
    OcamlError,
>)
    ensures
        analysis_result(result) == source_analysis(path@, texts(module@), source@),
{
    let interface = match path.extension() {
        Some(extension) => same_text(extension.as_str(), "mli"),
        None => false,
    };
    let rows = parse_rows(source, interface);
    analyze_ocaml_tree(path, module, &rows)
}

/// An analysis with what events say of it, if there are any.
pub open spec fn with_optional_events(
    analysis: AnalysisModel,
    known: Seq<(Seq<char>, Seq<char>)>,
    events: Option<Seq<EventModel>>,
) -> AnalysisModel {
    match events {
        Some(events) => with_events(analysis, known, events),
        None => analysis,
    }
}

/// The models of optional events.
pub open spec fn optional_events(events: Option<&Vec<TypedCallEvent>>) -> Option<Seq<EventModel>> {
    match events {
        Some(events) => Some(views(events@)),
        None => None,
    }
}

/// An analysis with its callable values followed.
pub open spec fn followed(analysis: AnalysisModel, known: Seq<(Seq<char>, Seq<char>)>) -> AnalysisModel {
    let values = resolved_values(analysis.functions, analysis.facts, known);
    AnalysisModel { functions: values.0, facts: values.1, ..analysis }
}

/// The analysis of one file on its own.
pub open spec fn file_analysis(
    path: Seq<char>,
    module: Seq<Seq<char>>,
    source: Seq<char>,
    events: Option<Seq<EventModel>>,
    known: Seq<(Seq<char>, Seq<char>)>,
) -> Result<AnalysisModel, OcamlErrorModel> {
    match source_analysis(path, module, source) {
        Ok(analysis) => Ok(followed(with_optional_events(analysis, known, events), known)),
        Err(error) => Err(error),
    }
}

/// Analyzes one file on its own.
pub fn analyze_ocaml_file(
    path: &SourcePath,
    module: &Vec<String>,
    source: &str,
    events: Option<&Vec<TypedCallEvent>>,
    known: &Vec<KnownFile>,
) -> (result: Result<FileAnalysis, OcamlError>)
    ensures
        analysis_result(result) == file_analysis(
            path@,
            texts(module@),
            source@,
            optional_events(events),
            views(known@),
        ),
{
    let mut analysis = match analyze_ocaml_syntax(path, module, source) {
        Ok(analysis) => analysis,
        Err(error) => {
            return Err(error);
        },
    };
    if let Some(events) = events {
        apply_typed_events(&mut analysis, known, events);
    }
    resolve_ocaml_function_values(&mut analysis, known);
    Ok(analysis)
}

/// The module of a file of a project: the name of the file.
pub open spec fn file_module(root: Seq<char>, file: Seq<char>) -> Seq<Seq<char>> {
    let relative = match path_under(file, root) {
        Some(relative) => relative,
        None => file,
    };
    match stem_of(relative) {
        Some(stem) => seq![stem],
        None => Seq::empty(),
    }
}

/// The module of a file of a project.
pub fn ocaml_file_module_path(root: &SourcePath, file: &SourcePath) -> (result: Vec<String>)
    ensures
        texts(result@) == file_module(root@, file@),
{
    let relative = match file.strip_prefix(root) {
        Some(relative) => relative,
        None => file.clone(),
    };
    let mut result: Vec<String> = Vec::new();
    if let Some(stem) = relative.file_stem() {
        result.push(stem);
    }
    proof {
        assert(texts(result@) =~= file_module(root@, file@));
    }
    result
}

/// The analysis of one source of a project, before callable values are
/// followed. What the compiler says of the whole project, if it was asked,
/// stands in for what it says of the source alone.
pub open spec fn project_file(
    root: Seq<char>,
    source: SourceTextModel,
    events: Option<Seq<EventModel>>,
    known: Seq<(Seq<char>, Seq<char>)>,
) -> Result<AnalysisModel, OcamlErrorModel> {
    match source_analysis(source.path, file_module(root, source.path), source.text) {
        Ok(analysis) => Ok(
            with_optional_events(
                analysis,
                known,
                match events {
                    Some(events) => Some(events),
                    None => source.events,
                },
            ),
        ),
        Err(error) => Err(error),
    }
}

/// The analysis of the first `count` sources of a project, before callable
/// values are followed.
pub open spec fn project_files(
    root: Seq<char>,
    sources: Seq<SourceTextModel>,
    events: Option<Seq<EventModel>>,
    known: Seq<(Seq<char>, Seq<char>)>,
    count: int,
) -> Result<AnalysisModel, OcamlErrorModel>
    decreases count,
{
    if count <= 0 {
        Ok(
            AnalysisModel {
                functions: Seq::empty(),
                facts: Seq::empty(),
                source_files: Seq::empty(),
                roots: Seq::empty(),
            },
        )
    } else {
        match project_files(root, sources, events, known, count - 1) {
            Err(error) => Err(error),
            Ok(before) => match project_file(root, sources[count - 1], events, known) {
                Err(error) => Err(error),
                Ok(analysis) => Ok(appended(before, analysis)),
            },
        }
    }
}

/// The analysis of a project.
pub open spec fn project_analysis(
    root: Seq<char>,
    sources: Seq<SourceTextModel>,
    events: Option<Seq<EventModel>>,
    known: Seq<(Seq<char>, Seq<char>)>,
) -> Result<AnalysisModel, OcamlErrorModel> {
    match project_files(root, sources, events, known, sources.len() as int) {
        Ok(analysis) => Ok(followed(analysis, known)),
        Err(error) => Err(error),
    }
}

proof fn errors_stay(
    root: Seq<char>,
    sources: Seq<SourceTextModel>,
    events: Option<Seq<EventModel>>,
    known: Seq<(Seq<char>, Seq<char>)>,
    count: int,
    end: int,
)
    requires
        count <= end,
        project_files(root, sources, events, known, count) is Err,
    ensures
        project_files(root, sources, events, known, end) == project_files(
            root,
            sources,
            events,
            known,
            count,
        ),
    decreases end - count,
{
    if count < end {
        errors_stay(root, sources, events, known, count, end - 1);
    }
}

fn analyze_project_file(
    root: &SourcePath,
    source: &SourceText,
    events: Option<&Vec<TypedCallEvent>>,
    known: &Vec<KnownFile>,
) -> (result: Result<FileAnalysis, OcamlError>)
    ensures
        analysis_result(result) == project_file(
            root@,
            source@,
            optional_events(events),
            views(known@),
        ),
{
    let module = ocaml_file_module_path(root, &source.path);
    let mut analysis = match analyze_ocaml_syntax(&source.path, &module, source.text.as_str()) {
        Ok(analysis) => analysis,
        Err(error) => {
            return Err(error);
        },
    };
    match events {
        Some(events) => {
            apply_typed_events(&mut analysis, known, events);
        },
        None => {
            if let Some(events) = &source.events {
                apply_typed_events(&mut analysis, known, events);
            }
        },
    }
    Ok(analysis)
}

fn analyze_sources(
    root: &SourcePath,
    sources: &Vec<SourceText>,
    events: Option<&Vec<TypedCallEvent>>,
    known: &Vec<KnownFile>,
) -> (result: Result<FileAnalysis, OcamlError>)
    ensures
        analysis_result(result) == project_analysis(
            root@,
            views(sources@),
            optional_events(events),
            views(known@),
        ),
{
    let ghost told = optional_events(events);
    let mut analysis = FileAnalysis::default();
    let mut index: usize = 0;
    proof {
        assert(views(sources@).len() == sources@.len());
    }
    while index < sources.len()
        invariant
            index <= sources@.len(),
            views(sources@).len() == sources@.len(),
            told == optional_events(events),
            project_files(root@, views(sources@), told, views(known@), index as int) == Ok::<
                AnalysisModel,
                OcamlErrorModel,
            >(analysis@),
        decreases sources@.len() - index,
    {
        proof {
            assert(views(sources@)[index as int] == sources@[index as int]@);
        }
        match analyze_project_file(root, &sources[index], events, known) {
            Ok(more) => {
                analysis.append(more);
            },
            Err(error) => {
                proof {
                    errors_stay(
                        root@,
                        views(sources@),
                        told,
                        views(known@),
                        index + 1,
                        sources@.len() as int,
                    );
                }
                return Err(error);
            },
        }
        index += 1;
    }
    resolve_ocaml_function_values(&mut analysis, known);
    Ok(analysis)
}

/// Analyzes the sources of a Dune project, with what the compiler says of the
/// whole project.
pub fn analyze_semantic_project(
    root: &SourcePath,
    sources: &Vec<SourceText>,
    events: &Vec<TypedCallEvent>,
    known: &Vec<KnownFile>,
) -> (result: Result<FileAnalysis, OcamlError>)
    ensures
        analysis_result(result) == project_analysis(
            root@,
            views(sources@),
            Some(views(events@)),
            views(known@),
        ),
{
    analyze_sources(root, sources, Some(events), known)
}

/// Analyzes a set of sources without a Dune project, each with what the
/// compiler says of it alone.
pub fn analyze_source_project(
    root: &SourcePath,
    sources: &Vec<SourceText>,
    known: &Vec<KnownFile>,
) -> (result: Result<FileAnalysis, OcamlError>)
    ensures
        analysis_result(result) == project_analysis(
            root@,
            views(sources@),
            None,
            views(known@),
        ),
{
    analyze_sources(root, sources, None, known)
}

} // verus!
