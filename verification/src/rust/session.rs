//! The steps of a Rust analysis, between the runs of rustc and Cargo.
use crate::append::appended;
use crate::files::KnownFile;
use crate::findings::{SourceText, SourceTextModel};
use crate::lists::views;
use crate::model::{AnalysisModel, FileAnalysis};
use crate::paths::{is_absolute, optional_path, parts_of, path_behind, path_parts, SourcePath};
use crate::rust::extract::{
    analyze_rust_items, collect_seedable_functions, seedable_functions, source_analysis,
};
use crate::rust::fingerprint::RUST_SEMANTIC_CACHE_SCHEMA;
use crate::rust::items::{RustItem, RustItemModel};
use crate::rust::merge::{merge_semantic_program, merged_analysis};
use crate::rust::remap::{
    append_entry_seeds, find_generic_entries, find_missing_entries, generic_entries,
    missing_entries, module_of_file, moved_program, remap_analysis_root, remap_semantic_file,
    remove_seed_functions, rerooted_analysis, rust_module_path, seeded_source, without_seeds,
    SeedableFunction, SeedableModel,
};
use crate::rust::semantic::{ProgramModel, SemanticProgram};
use crate::rust::syntax::{parse_items, rust_items};
use crate::text::{
    chars_of, concat_texts, decimal, optional, same_text, slice_text, texts, trim_text, trimmed,
    wide_decimal_text,
};
use vstd::prelude::*;

verus! {

/// Why a path is not analyzed as a lone file.
pub open spec fn standalone_error(path: Seq<char>) -> Seq<char> {
    "Rust analysis currently requires a standalone .rs file: "@ + path
}

/// Refuses what is not a lone file.
pub fn require_standalone(path: &SourcePath, is_file: bool) -> (result: Result<(), String>)
    ensures
        match result {
            Ok(_) => is_file,
            Err(message) => !is_file && message@ == standalone_error(path@),
        },
{
    if is_file {
        Ok(())
    } else {
        Err(
            concat_texts(
                "Rust analysis currently requires a standalone .rs file: ",
                path.text.as_str(),
            ),
        )
    }
}

/// What comes behind the first run of rustc.
#[derive(Debug)]
pub enum SemanticStep {
    /// The analysis is there.
    Done(FileAnalysis),
    /// rustc is to read this source, which calls what the entries name.
    Seed(String),
}

pub enum StepModel {
    Done(AnalysisModel),
    Seed(Seq<char>),
}

impl View for SemanticStep {
    type V = StepModel;

    open spec fn view(&self) -> StepModel {
        match self {
            SemanticStep::Done(analysis) => StepModel::Done(analysis@),
            SemanticStep::Seed(source) => StepModel::Seed(source@),
        }
    }
}

/// The functions of a file that a source can be made to call.
pub open spec fn file_seedables(items: Seq<RustItemModel>) -> Seq<SeedableModel> {
    seedable_functions(items, Seq::empty(), Seq::empty(), items.len())
}

/// A source, whose items were read, with functions behind it that call the
/// instances that entries name.
pub fn seed_items(source: &str, items: &Vec<RustItem>, entries: &Vec<String>) -> (result: Option<String>)
    ensures
        optional(result) == seeded_source(source@, file_seedables(views(items@)), texts(entries@)),
{
    let module: Vec<String> = Vec::new();
    let mut functions: Vec<SeedableFunction> = Vec::new();
    proof {
        assert(texts(module@) =~= Seq::empty());
        assert(views(functions@) =~= Seq::empty());
    }
    collect_seedable_functions(items, &module, &mut functions);
    append_entry_seeds(source, &functions, entries)
}

/// A source with functions behind it that call the instances that entries
/// name. Fails on what is no Rust source.
pub fn seed_source(source: &str, entries: &Vec<String>) -> (result: Result<Option<String>, String>)
    ensures
        match rust_items(source@) {
            Ok(items) => result is Ok && optional(result->Ok_0) == seeded_source(
                source@,
                file_seedables(items),
                texts(entries@),
            ),
            Err(message) => result is Err && result->Err_0@ == message,
        },
{
    match parse_items(source) {
        Ok(items) => Ok(seed_items(source, &items, entries)),
        Err(message) => Err(message),
    }
}

/// The analysis of a lone file, from what it says and what rustc says of it.
pub open spec fn file_analysis(
    path: Seq<char>,
    items: Seq<RustItemModel>,
    semantic: ProgramModel,
    known: Seq<(Seq<char>, Seq<char>)>,
) -> AnalysisModel {
    merged_analysis(source_analysis(path, Seq::empty(), items), semantic, known)
}

/// Analyzes a lone file, from its items and what rustc says of it.
pub fn analyze_semantic_items(
    path: &SourcePath,
    items: &Vec<RustItem>,
    semantic: SemanticProgram,
    known: &Vec<KnownFile>,
) -> (result: FileAnalysis)
    ensures
        result@ == file_analysis(path@, views(items@), semantic@, views(known@)),
{
    let module: Vec<String> = Vec::new();
    proof {
        assert(texts(module@) =~= Seq::empty());
    }
    merge_semantic_program(analyze_rust_items(path, &module, items), semantic, known)
}

/// What the text of a file tells an analysis.
pub open spec fn analysis_outcome(result: Result<FileAnalysis, String>) -> Result<
    AnalysisModel,
    Seq<char>,
> {
    match result {
        Ok(analysis) => Ok(analysis@),
        Err(message) => Err(message@),
    }
}

/// Analyzes a lone file, from its text and what rustc says of it. Fails on what
/// is no Rust source.
pub fn analyze_semantic_file(
    path: &SourcePath,
    source: &str,
    semantic: SemanticProgram,
    known: &Vec<KnownFile>,
) -> (result: Result<FileAnalysis, String>)
    ensures
        analysis_outcome(result) == (match rust_items(source@) {
            Ok(items) => Ok(file_analysis(path@, items, semantic@, views(known@))),
            Err(message) => Err(message),
        }),
{
    match parse_items(source) {
        Ok(items) => Ok(analyze_semantic_items(path, &items, semantic, known)),
        Err(message) => Err(message),
    }
}

/// What comes behind the first run of rustc on a lone file: where entries name
/// instances that the file does not use, and that it can be made to call,
/// rustc is to read a source that calls them.
pub open spec fn file_step(
    path: Seq<char>,
    source: Seq<char>,
    items: Seq<RustItemModel>,
    semantic: ProgramModel,
    entries: Seq<Seq<char>>,
    known: Seq<(Seq<char>, Seq<char>)>,
) -> StepModel {
    let analysis = file_analysis(path, items, semantic, known);
    let missing = missing_entries(analysis, entries, entries.len() as int);
    if missing.len() == 0 {
        StepModel::Done(analysis)
    } else {
        match seeded_source(source, file_seedables(items), missing) {
            Some(seeded) => StepModel::Seed(seeded),
            None => StepModel::Done(analysis),
        }
    }
}

/// Takes the step behind the first run of rustc on a lone file, whose items
/// were read.
pub fn step_behind_items(
    path: &SourcePath,
    source: &str,
    items: &Vec<RustItem>,
    semantic: SemanticProgram,
    entries: &Vec<String>,
    known: &Vec<KnownFile>,
) -> (result: SemanticStep)
    ensures
        result@ == file_step(
            path@,
            source@,
            views(items@),
            semantic@,
            texts(entries@),
            views(known@),
        ),
{
    let analysis = analyze_semantic_items(path, items, semantic, known);
    let missing = find_missing_entries(&analysis, entries);
    proof {
        assert(texts(missing@).len() == missing@.len());
        assert(texts(entries@).len() == entries@.len());
    }
    if missing.len() == 0 {
        return SemanticStep::Done(analysis);
    }
    match seed_items(source, items, &missing) {
        Some(seeded) => SemanticStep::Seed(seeded),
        None => SemanticStep::Done(analysis),
    }
}

/// What the text of a file tells a step.
pub open spec fn step_outcome(result: Result<SemanticStep, String>) -> Result<StepModel, Seq<char>> {
    match result {
        Ok(step) => Ok(step@),
        Err(message) => Err(message@),
    }
}

/// The step behind the first run of rustc on a lone file, by its text.
pub open spec fn source_step(
    path: Seq<char>,
    source: Seq<char>,
    semantic: ProgramModel,
    entries: Seq<Seq<char>>,
    known: Seq<(Seq<char>, Seq<char>)>,
) -> Result<StepModel, Seq<char>> {
    match rust_items(source) {
        Ok(items) => Ok(file_step(path, source, items, semantic, entries, known)),
        Err(message) => Err(message),
    }
}

/// Takes the step behind the first run of rustc on a lone file. Fails on what
/// is no Rust source.
pub fn analyze_semantic_file_with_entries(
    path: &SourcePath,
    source: &str,
    semantic: SemanticProgram,
    entries: &Vec<String>,
    known: &Vec<KnownFile>,
) -> (result: Result<SemanticStep, String>)
    ensures
        step_outcome(result) == source_step(
            path@,
            source@,
            semantic@,
            texts(entries@),
            views(known@),
        ),
{
    match parse_items(source) {
        Ok(items) => Ok(step_behind_items(path, source, &items, semantic, entries, known)),
        Err(message) => Err(message),
    }
}

/// The analysis of a lone file behind the second run of rustc, which read a
/// copy of it.
pub open spec fn seeded_analysis(
    path: Seq<char>,
    items: Seq<RustItemModel>,
    copy: Seq<char>,
    semantic: ProgramModel,
    known: Seq<(Seq<char>, Seq<char>)>,
) -> AnalysisModel {
    file_analysis(path, items, moved_program(semantic, copy, path, known), known)
}

/// Analyzes a lone file behind the second run of rustc, which read a copy of
/// it. Fails on what is no Rust source.
pub fn analyze_seeded_file(
    path: &SourcePath,
    source: &str,
    copy: &SourcePath,
    semantic: SemanticProgram,
    known: &Vec<KnownFile>,
) -> (result: Result<FileAnalysis, String>)
    ensures
        analysis_outcome(result) == (match rust_items(source@) {
            Ok(items) => Ok(seeded_analysis(path@, items, copy@, semantic@, views(known@))),
            Err(message) => Err(message),
        }),
{
    let mut program = semantic;
    remap_semantic_file(&mut program, copy, path, known);
    analyze_semantic_file(path, source, program, known)
}

/// The step behind the first run of rustc on a source that stands in a file of
/// its own for the time of the analysis.
pub fn analyze_semantic_source(
    temporary: &SourcePath,
    source: &str,
    semantic: SemanticProgram,
    entries: &Vec<String>,
    known: &Vec<KnownFile>,
) -> (result: Result<SemanticStep, String>)
    ensures
        step_outcome(result) == source_step(
            temporary@,
            source@,
            semantic@,
            texts(entries@),
            views(known@),
        ),
{
    analyze_semantic_file_with_entries(temporary, source, semantic, entries, known)
}

/// The analysis of the first `count` source files of a project, by their text
/// alone, or what is said of the first that is no Rust source.
pub open spec fn sources_analysis(
    root: Seq<char>,
    sources: Seq<SourceTextModel>,
    count: int,
) -> Result<AnalysisModel, Seq<char>>
    decreases count,
{
    if count <= 0 {
        Ok(
            AnalysisModel {
                functions: Seq::empty(),
                facts: Seq::empty(),
                source_files: Seq::empty(),
                roots: Seq::empty(),
            },
        )
    } else {
        let source = sources[count - 1];
        match sources_analysis(root, sources, count - 1) {
            Ok(before) => match rust_items(source.text) {
                Ok(items) => Ok(
                    appended(
                        before,
                        source_analysis(source.path, module_of_file(root, source.path), items),
                    ),
                ),
                Err(message) => Err(message),
            },
            Err(message) => Err(message),
        }
    }
}

proof fn failure_stays(root: Seq<char>, sources: Seq<SourceTextModel>, first: int, count: int)
    requires
        0 <= first <= count,
        sources_analysis(root, sources, first) is Err,
    ensures
        sources_analysis(root, sources, count) == sources_analysis(root, sources, first),
    decreases count,
{
    if first < count {
        failure_stays(root, sources, first, count - 1);
    }
}

/// Analyzes the source files of a project, by their text alone. Fails on what
/// is no Rust source.
pub fn analyze_project_sources(root: &SourcePath, sources: &Vec<SourceText>) -> (result: Result<
    FileAnalysis,
    String,
>)
    ensures
        analysis_outcome(result) == sources_analysis(
            root@,
            views(sources@),
            sources@.len() as int,
        ),
{
    let ghost all = views(sources@);
    let mut combined = FileAnalysis::default();
    let mut index: usize = 0;
    while index < sources.len()
        invariant
            index <= sources@.len(),
            all == views(sources@),
            sources_analysis(root@, all, index as int) == Ok::<AnalysisModel, Seq<char>>(combined@),
        decreases sources@.len() - index,
    {
        let source = &sources[index];
        proof {
            assert(all[index as int] == source@);
        }
        match parse_items(source.text.as_str()) {
            Ok(items) => {
                let module = rust_module_path(root, &source.path);
                combined.append(analyze_rust_items(&source.path, &module, &items));
            },
            Err(message) => {
                proof {
                    failure_stays(root@, all, index + 1, sources@.len() as int);
                }
                return Err(message);
            },
        }
        index += 1;
    }
    Ok(combined)
}

/// Why a directory is not analyzed as a project.
pub open spec fn missing_manifest(root: Seq<char>) -> Seq<char> {
    "no Cargo.toml at Rust project root "@ + root
}

/// The entries that a copy of a project is to call, where there are any.
/// Fails on a directory without a manifest.
pub fn project_seeds(root: &SourcePath, has_manifest: bool, entries: &Vec<String>) -> (result: Result<
    Option<Vec<String>>,
    String,
>)
    ensures
        match result {
            Err(message) => !has_manifest && message@ == missing_manifest(root@),
            Ok(None) => has_manifest && generic_entries(
                texts(entries@),
                entries@.len() as int,
            ).len() == 0,
            Ok(Some(seeds)) => has_manifest && texts(seeds@) == generic_entries(
                texts(entries@),
                entries@.len() as int,
            ) && seeds@.len() > 0,
        },
{
    if !has_manifest {
        return Err(concat_texts("no Cargo.toml at Rust project root ", root.text.as_str()));
    }
    let seeds = find_generic_entries(entries);
    proof {
        assert(texts(seeds@).len() == seeds@.len());
    }
    if seeds.len() == 0 {
        Ok(None)
    } else {
        Ok(Some(seeds))
    }
}

/// Brings the analysis of a copy of a project, which calls what entries name,
/// back to the project.
pub fn finish_seeded_project(analysis: &mut FileAnalysis, copy: &SourcePath, root: &SourcePath)
    ensures
        final(analysis)@ == without_seeds(rerooted_analysis(old(analysis)@, copy@, root@)),
{
    remap_analysis_root(analysis, copy, root);
    remove_seed_functions(analysis);
}

/// What is said of a tool that failed: what it said itself, or how it ended.
pub open spec fn failure_text(said: Seq<char>, otherwise: Seq<char>, status: Seq<char>) -> Seq<char> {
    if trimmed(said).len() == 0 {
        otherwise + status
    } else {
        trimmed(said)
    }
}

/// What is said of a tool that failed: what it said itself, or how it ended.
pub fn failure_message(said: &str, otherwise: &str, status: &str) -> (result: String)
    ensures
        result@ == failure_text(said@, otherwise@, status@),
{
    let diagnostic = trim_text(said);
    if chars_of(diagnostic.as_str()).len() == 0 {
        concat_texts(otherwise, status)
    } else {
        diagnostic
    }
}

/// How a run of rustc ends that gives no analysis.
#[derive(Clone, Copy, Debug, PartialEq, Eq, Structural)]
pub enum CompilerEnd {
    Failed,
    Skipped,
    /// A generic function led to ever new instances of itself.
    Expanding,
    /// It ended before it was asked for anything.
    Unasked,
}

/// What is said of a run of rustc that gives no analysis.
pub open spec fn compiler_end_text(end: CompilerEnd, path: Seq<char>) -> Seq<char> {
    match end {
        CompilerEnd::Failed => "rustc failed to compile "@ + path + " for semantic analysis"@,
        CompilerEnd::Skipped => "rustc skipped semantic analysis before its callback ran"@,
        CompilerEnd::Expanding =>
            "rustc semantic analysis stopped at a recursively expanding generic instantiation"@,
        CompilerEnd::Unasked =>
            "rustc semantic callback unexpectedly completed without analysis"@,
    }
}

impl CompilerEnd {
    /// What is said of the run.
    pub fn to_text(&self, path: &SourcePath) -> (result: String)
        ensures
            result@ == compiler_end_text(*self, path@),
    {
        match self {
            CompilerEnd::Failed => {
                let mut text = concat_texts("rustc failed to compile ", path.text.as_str());
                text.append(" for semantic analysis");
                text
            },
            CompilerEnd::Skipped =>
                "rustc skipped semantic analysis before its callback ran".to_owned(),
            CompilerEnd::Expanding =>
                "rustc semantic analysis stopped at a recursively expanding generic instantiation".to_owned(),
            CompilerEnd::Unasked =>
                "rustc semantic callback unexpectedly completed without analysis".to_owned(),
        }
    }
}

/// The directory that Cargo builds in for one side of a comparison. Sides do
/// not share one: Cargo tells packages apart regardless of where a snapshot
/// lies, and would take what it built for one side as fresh for the other.
#[derive(Debug)]
pub struct RustProjectSession {
    pub target: SourcePath,
    /// The directory that goes when the session ends.
    pub cleanup: Option<SourcePath>,
    pub endpoint: Option<String>,
    pub verbose: bool,
}

/// Whether a name is that of one directory.
pub open spec fn is_one_name(endpoint: Seq<char>) -> bool {
    let parts = path_parts(endpoint);
    !is_absolute(endpoint) && parts.len() == 1 && parts[0] != "."@ && parts[0] != ".."@
}

/// The directory that Cargo builds in for a side of a comparison that is kept.
pub open spec fn kept_target(project_root: Seq<char>, endpoint: Seq<char>) -> Seq<char> {
    path_behind(path_behind(path_behind(project_root, "target"@), "diffkit-semantic"@), endpoint)
}

impl RustProjectSession {
    /// A session in a directory that goes with it.
    pub fn create(directory: SourcePath) -> (result: Self)
        ensures
            result.target@ == path_behind(directory@, "target"@),
            optional_path(result.cleanup) == Some(directory@),
            result.endpoint is None,
            !result.verbose,
    {
        RustProjectSession {
            target: directory.join("target"),
            cleanup: Some(directory),
            endpoint: None,
            verbose: false,
        }
    }

    /// A session in a directory of a project that is kept. Fails where the
    /// side is not named by one directory.
    pub fn create_cached(project_root: &SourcePath, endpoint: &str, verbose: bool) -> (result: Result<
        Self,
        String,
    >)
        ensures
            match result {
                Ok(session) => is_one_name(endpoint@) && session.target@ == kept_target(
                    project_root@,
                    endpoint@,
                ) && session.cleanup is None && optional(session.endpoint) == Some(endpoint@)
                    && session.verbose == verbose,
                Err(message) => !is_one_name(endpoint@) && message@
                    == "Rust semantic cache endpoint must be one path component"@,
            },
    {
        let parts = parts_of(endpoint);
        proof {
            assert(texts(parts@).len() == parts@.len());
            if parts@.len() == 1 {
                assert(texts(parts@)[0] == parts@[0]@);
            }
        }
        if SourcePath::new(endpoint).is_absolute() || parts.len() != 1 || same_text(
            parts[0].as_str(),
            ".",
        ) || same_text(parts[0].as_str(), "..") {
            return Err("Rust semantic cache endpoint must be one path component".to_owned());
        }
        Ok(
            RustProjectSession {
                target: project_root.join("target").join("diffkit-semantic").join(endpoint),
                cleanup: None,
                endpoint: Some(endpoint.to_owned()),
                verbose,
            },
        )
    }

    /// Where an analysis is kept. A session that goes keeps none.
    pub fn cache_path(&self) -> (result: Option<SourcePath>)
        ensures
            optional_path(result) == (if self.cleanup is None {
                Some(path_behind(path_behind(self.target@, ".diffkit"@), "analysis-v2.json"@))
            } else {
                None
            }),
    {
        if self.cleanup.is_none() {
            Some(self.target.join(".diffkit").join("analysis-v2.json"))
        } else {
            None
        }
    }

    /// What is said of a kept analysis: whether it was there, under which
    /// digest, and how long that took. Nothing where nothing is to be said.
    pub fn report_cache(&self, hit: bool, fingerprint: &str, taken: u128, total: u128) -> (result: Option<
        String,
    >)
        ensures
            optional(result) == (if self.verbose {
                Some(cache_text(hit, optional(self.endpoint), fingerprint@, taken, total))
            } else {
                None
            }),
    {
        if !self.verbose {
            return None;
        }
        let status = if hit {
            "hit"
        } else {
            "miss"
        };
        let mut text = concat_texts("Rust semantic cache ", status);
        text.append(": ");
        match &self.endpoint {
            Some(endpoint) => text.append(endpoint.as_str()),
            None => text.append("temporary"),
        }
        text.append(" [");
        let digits = chars_of(fingerprint);
        let shown: usize = if digits.len() < 12 {
            digits.len()
        } else {
            12
        };
        text.append(slice_text(digits.as_slice(), 0, shown).as_str());
        proof {
            assert(fingerprint@.subrange(0, shown as int) =~= fingerprint@.take(shown as int));
        }
        text.append("] (");
        text.append(wide_decimal_text(total).as_str());
        text.append(" ms; fingerprint ");
        text.append(wide_decimal_text(taken).as_str());
        text.append(" ms)");
        Some(text)
    }
}

/// What is said of a kept analysis.
pub open spec fn cache_text(
    hit: bool,
    endpoint: Option<Seq<char>>,
    fingerprint: Seq<char>,
    taken: u128,
    total: u128,
) -> Seq<char> {
    let status = if hit {
        "hit"@
    } else {
        "miss"@
    };
    let side = match endpoint {
        Some(endpoint) => endpoint,
        None => "temporary"@,
    };
    let shown = if fingerprint.len() < 12 {
        fingerprint.len() as int
    } else {
        12
    };
    "Rust semantic cache "@ + status + ": "@ + side + " ["@ + fingerprint.take(shown) + "] ("@
        + decimal(total as nat) + " ms; fingerprint "@ + decimal(taken as nat) + " ms)"@
}

/// An analysis that was kept, with what it depended on.
#[derive(Debug)]
pub struct CachedRustAnalysis {
    pub schema: u32,
    pub fingerprint: String,
    pub root: SourcePath,
    pub analysis: FileAnalysis,
}

/// What is kept of an analysis.
pub fn keep_analysis(fingerprint: String, root: &SourcePath, analysis: FileAnalysis) -> (result:
    CachedRustAnalysis)
    ensures
        result.schema == RUST_SEMANTIC_CACHE_SCHEMA,
        result.fingerprint@ == fingerprint@,
        result.root@ == root@,
        result.analysis@ == analysis@,
{
    CachedRustAnalysis {
        schema: RUST_SEMANTIC_CACHE_SCHEMA,
        fingerprint,
        root: root.clone(),
        analysis,
    }
}

/// An analysis that was kept, for a project at a root. None where it has
/// another form or depended on something else.
pub fn read_analysis_cache(cached: CachedRustAnalysis, fingerprint: &str, root: &SourcePath) -> (result:
    Option<FileAnalysis>)
    ensures
        match result {
            Some(analysis) => cached.schema == RUST_SEMANTIC_CACHE_SCHEMA
                && cached.fingerprint@ == fingerprint@ && analysis@ == rerooted_analysis(
                cached.analysis@,
                cached.root@,
                root@,
            ),
            None => cached.schema != RUST_SEMANTIC_CACHE_SCHEMA || cached.fingerprint@
                != fingerprint@,
        },
{
    if cached.schema != RUST_SEMANTIC_CACHE_SCHEMA || !same_text(
        cached.fingerprint.as_str(),
        fingerprint,
    ) {
        return None;
    }
    let mut analysis = cached.analysis;
    remap_analysis_root(&mut analysis, &cached.root, root);
    Some(analysis)
}

} // verus!
